//! Compiled queries and reusable scratch space. Search indices belong to a snapshot.
//!
//! A query is a list of whitespace-separated terms; every term must match some field.
//! A term matches a field when it is a case-insensitive substring of it, or when its
//! `*`-separated chunks match one after another, each chunk either as a substring or as an
//! abbreviation whose characters start words (`MIMJWT` in
//! `Microsoft.IdentityModel.JsonWebTokens`). Abbreviations never span a path separator.
use vstd::prelude::*;
use crate::model::{Process, Usage, UsageView, ProcessView, relation_label, access_label, lock_text_view};
use crate::text::{utf8_lossy, lossy, decimal, decimal_of, words, split_whitespace, split_on, chars_contain, chars_equal, chars_occur_at, to_string, char_alphanumeric, char_uppercase, char_lowercase, char_lower, str_lowercase, pieces, contains_seq, starts_with, chars_of, lowercase, lower, is_alphanumeric, is_uppercase, is_lowercase};


verus! {

/// The abstract content of a searchable field.
pub struct FieldView {
    /// Lowercase text of the field.
    pub lower: Seq<char>,
    /// Characters of the field as given.
    pub chars: Seq<char>,
    /// Each character lowercased on its own.
    pub folded: Seq<char>,
    /// For each character, whether a word starts there.
    pub boundaries: Seq<bool>,
    /// Whether the field is a name that ranks twice as high.
    pub name: bool,
}

/// Whether `c` separates path components.
pub open spec fn is_separator(c: char) -> bool {
    c == '/' || c == '\\'
}

/// A word starts at position `i` of characters whose classes are `alnum` (alphanumeric),
/// `upper` and `lower`: at the start, after a non-alphanumeric character, at a
/// non-alphanumeric character, or at an uppercase letter that follows a lowercase letter or
/// precedes one (`Json|Web`, `JSON|Web`).
pub open spec fn boundary_at(alnum: Seq<bool>, upper: Seq<bool>, lower: Seq<bool>, i: int) -> bool {
    ||| i == 0
    ||| !alnum[i - 1]
    ||| upper[i] && (lower[i - 1] || (i + 1 < alnum.len() && lower[i + 1]))
    ||| !alnum[i]
}

/// The field made of characters with their lowercase text, each character lowercased, and
/// their classes.
pub open spec fn classes_view(
    chars: Seq<char>,
    lower: Seq<char>,
    folded: Seq<char>,
    alnum: Seq<bool>,
    upper: Seq<bool>,
    lowercase: Seq<bool>,
    name: bool,
) -> FieldView {
    FieldView {
        lower,
        chars,
        folded,
        boundaries: Seq::new(chars.len(), |i: int| boundary_at(alnum, upper, lowercase, i)),
        name,
    }
}

/// The field built from `text`.
pub open spec fn field_view(text: Seq<char>, name: bool) -> FieldView {
    classes_view(
        text,
        str_lowercase(text),
        text.map_values(|c: char| char_lower(c)),
        text.map_values(|c: char| char_alphanumeric(c)),
        text.map_values(|c: char| char_uppercase(c)),
        text.map_values(|c: char| char_lowercase(c)),
        name,
    )
}

#[derive(Debug)]
/// A searchable field with cached text and word boundaries.
pub struct Field {
    lower: Vec<char>,
    chars: Vec<char>,
    folded: Vec<char>,
    boundaries: Vec<bool>,
    name: bool,
}

impl View for Field {
    type V = FieldView;

    closed spec fn view(&self) -> FieldView {
        FieldView { lower: self.lower@, chars: self.chars@, folded: self.folded@, boundaries: self.boundaries@, name: self.name }
    }
}

impl Field {
    #[verifier::type_invariant]
    spec fn wf(self) -> bool {
        &&& self.boundaries@.len() == self.chars@.len()
        &&& self.folded@.len() == self.chars@.len()
    }

    /// Build a field, optionally giving it filename ranking priority.
    pub fn new(text: &str, name: bool) -> (r: Self)
        ensures
            r@ == field_view(text@, name),
    {
        let chars = chars_of(text);
        Self::from_chars(&chars, name)
    }

    /// Build a field from its characters.
    pub fn from_chars(chars: &[char], name: bool) -> (r: Self)
        ensures
            r@ == field_view(chars@, name),
    {
        let mut folded: Vec<char> = Vec::new();
        let mut alnum: Vec<bool> = Vec::new();
        let mut upper: Vec<bool> = Vec::new();
        let mut lowercase_flags: Vec<bool> = Vec::new();
        let n = chars.len();
        let mut i: usize = 0;
        while i < n
            invariant
                n == chars@.len(),
                i <= n,
                folded@ == chars@.take(i as int).map_values(|c: char| char_lower(c)),
                alnum@ == chars@.take(i as int).map_values(|c: char| char_alphanumeric(c)),
                upper@ == chars@.take(i as int).map_values(|c: char| char_uppercase(c)),
                lowercase_flags@ == chars@.take(i as int).map_values(|c: char| char_lowercase(c)),
            decreases n - i,
        {
            let c = chars[i];
            folded.push(lower(c));
            alnum.push(is_alphanumeric(c));
            upper.push(is_uppercase(c));
            lowercase_flags.push(is_lowercase(c));
            let ghost t = chars@.take(i as int + 1);
            assert(t =~= chars@.take(i as int).push(c));
            assert(folded@ =~= t.map_values(|c: char| char_lower(c)));
            assert(alnum@ =~= t.map_values(|c: char| char_alphanumeric(c)));
            assert(upper@ =~= t.map_values(|c: char| char_uppercase(c)));
            assert(lowercase_flags@ =~= t.map_values(|c: char| char_lowercase(c)));
            i = i + 1;
        }
        assert(chars@.take(n as int) =~= chars@);
        let lowered = lowercase(chars);
        Self::from_classes(chars, lowered, folded, &alnum, &upper, &lowercase_flags, name)
    }

    /// Build a field from its characters, their lowercase text, each character lowercased,
    /// and which characters are alphanumeric, uppercase and lowercase.
    pub fn from_classes(
        chars: &[char],
        lower: Vec<char>,
        folded: Vec<char>,
        alnum: &[bool],
        upper: &[bool],
        lowercase: &[bool],
        name: bool,
    ) -> (r: Self)
        requires
            folded@.len() == chars@.len(),
            alnum@.len() == chars@.len(),
            upper@.len() == chars@.len(),
            lowercase@.len() == chars@.len(),
        ensures
            r@ == classes_view(chars@, lower@, folded@, alnum@, upper@, lowercase@, name),
    {
        let mut boundaries: Vec<bool> = Vec::new();
        let n = chars.len();
        let mut i: usize = 0;
        while i < n
            invariant
                n == chars@.len(),
                n == alnum@.len(),
                n == upper@.len(),
                n == lowercase@.len(),
                i <= n,
                boundaries@.len() == i,
                forall|k: int| 0 <= k < i ==> boundaries@[k] == boundary_at(alnum@, upper@, lowercase@, k),
            decreases n - i,
        {
            let b = i == 0 || !alnum[i - 1] || upper[i] && (lowercase[i - 1] || (i + 1 < n && lowercase[i + 1]))
                || !alnum[i];
            boundaries.push(b);
            i = i + 1;
        }
        let mut own: Vec<char> = Vec::new();
        let mut k: usize = 0;
        while k < n
            invariant
                n == chars@.len(),
                k <= n,
                own@ == chars@.take(k as int),
            decreases n - k,
        {
            own.push(chars[k]);
            assert(chars@.take(k as int + 1) =~= chars@.take(k as int).push(chars@[k as int]));
            k = k + 1;
        }
        assert(chars@.take(n as int) =~= chars@);
        let r = Self { lower, chars: own, folded, boundaries, name };
        assert(r@.boundaries =~= classes_view(chars@, r@.lower, r@.folded, alnum@, upper@, lowercase@, name).boundaries);
        r
    }
}

/// Reusable matching buffers shared across fields and queries.
pub struct Scratch {
    previous: Vec<bool>,
    next: Vec<bool>,
}

impl Default for Scratch {
    fn default() -> Self {
        Scratch { previous: Vec::new(), next: Vec::new() }
    }
}

/// The abstract content of a compiled term.
pub struct TermView {
    /// Lowercase text of the term.
    pub text: Seq<char>,
    /// The pieces of the text between `*` wildcards.
    pub chunks: Seq<Seq<char>>,
}

/// The term compiled from a word of a query.
pub open spec fn term_view(word: Seq<char>) -> TermView {
    lowered_term(str_lowercase(word))
}

/// The term of an already lowercased word: its text and the chunks between `*` wildcards.
pub open spec fn lowered_term(text: Seq<char>) -> TermView {
    TermView { text, chunks: pieces(text, '*') }
}

#[derive(Debug)]
struct Term {
    text: Vec<char>,
    chunks: Vec<Vec<char>>,
}

impl View for Term {
    type V = TermView;

    closed spec fn view(&self) -> TermView {
        TermView { text: self.text@, chunks: self.chunks@.map_values(|c: Vec<char>| c@) }
    }
}

/// The views of a sequence of fields.
pub open spec fn fields_view(fields: Seq<Field>) -> Seq<FieldView> {
    fields.map_values(|f: Field| f@)
}

/// A compiled, whitespace-separated search query.
#[derive(Debug)]
pub struct Query {
    terms: Vec<Term>,
}

impl View for Query {
    type V = Seq<TermView>;

    closed spec fn view(&self) -> Seq<TermView> {
        self.terms@.map_values(|t: Term| t@)
    }
}

impl Default for Query {
    fn default() -> (r: Self)
        ensures
            r@ == Seq::<TermView>::empty(),
    {
        let r = Query { terms: Vec::new() };
        assert(r@ =~= Seq::<TermView>::empty());
        r
    }
}

/// Characters `q[0..=i]` can be matched as an abbreviation that ends at character `j` of the
/// field, beginning no earlier than `start`: the first character at a word start, each later
/// one either right after the previous one or at a later word start in the same path
/// component.
pub open spec fn abbreviation(f: FieldView, q: Seq<char>, start: int, i: int, j: int) -> bool
    decreases i, 2 * (j - start) + 1,
{
    if i < 0 || i >= q.len() || j < start || j >= f.chars.len() || is_separator(f.chars[j])
        || f.folded[j] != q[i] {
        false
    } else if i == 0 {
        f.boundaries[j]
    } else {
        ||| j > start && abbreviation(f, q, start, i - 1, j - 1)
        ||| f.boundaries[j] && reaches(f, q, start, i - 1, j)
    }
}

/// An abbreviation of `q[0..=i]` ends at some position from `start` up to just before `j`,
/// with no path separator from there up to `j`.
pub open spec fn reaches(f: FieldView, q: Seq<char>, start: int, i: int, j: int) -> bool
    decreases i, 2 * (j - start),
{
    if j <= start || j > f.chars.len() || is_separator(f.chars[j - 1]) {
        false
    } else {
        reaches(f, q, start, i, j - 1) || abbreviation(f, q, start, i, j - 1)
    }
}

/// `q` occurs case-insensitively in the field at position `i`, no earlier than `start`.
pub open spec fn exact_at(f: FieldView, q: Seq<char>, start: int, i: int) -> bool {
    &&& start <= i
    &&& i + q.len() <= f.chars.len()
    &&& forall|j: int| 0 <= j < q.len() ==> #[trigger] f.folded[i + j] == q[j]
}

/// A match of the non-empty chunk `q` can end at position `e`.
pub open spec fn match_ends_at(f: FieldView, q: Seq<char>, start: int, e: int) -> bool {
    exact_at(f, q, start, e - q.len()) || abbreviation(f, q, start, q.len() - 1, e - 1)
}

/// The first position, from `e` on, at which a match of `q` ends.
pub open spec fn first_match_end(f: FieldView, q: Seq<char>, start: int, e: int) -> Option<int>
    decreases f.chars.len() + 1 - e,
{
    if e > f.chars.len() {
        None
    } else if match_ends_at(f, q, start, e) {
        Some(e)
    } else {
        first_match_end(f, q, start, e + 1)
    }
}

/// The earliest end of a match of chunk `q` that begins at or after `start`.
pub open spec fn chunk_end(f: FieldView, q: Seq<char>, start: int) -> Option<int> {
    if q.len() == 0 {
        Some(start)
    } else {
        first_match_end(f, q, start, start + 1)
    }
}

/// The chunks from index `k` on match one after another, beginning at `start`.
pub open spec fn chunks_match(f: FieldView, chunks: Seq<Seq<char>>, k: int, start: int) -> bool
    decreases chunks.len() - k,
{
    if k >= chunks.len() {
        true
    } else {
        match chunk_end(f, chunks[k], start) {
            Some(e) => chunks_match(f, chunks, k + 1, e),
            None => false,
        }
    }
}

/// A term matches a field.
pub open spec fn term_matches(t: TermView, f: FieldView) -> bool {
    (t.chunks.len() == 1 && contains_seq(f.lower, t.text)) || chunks_match(f, t.chunks, 0, 0)
}

/// The rank of a field for a term: exact name, prefix, substring, abbreviation or wildcard
/// match, doubled for name fields.
pub open spec fn term_score(t: TermView, f: FieldView) -> nat {
    let base: nat = if f.lower == t.text {
        100
    } else if starts_with(f.lower, t.text) {
        80
    } else if contains_seq(f.lower, t.text) {
        60
    } else if term_matches(t, f) {
        30
    } else {
        0
    };
    if f.name { base * 2 } else { base }
}

/// The best rank of a term over fields (zero without fields).
pub open spec fn best_score(t: TermView, fields: Seq<FieldView>) -> nat
    decreases fields.len(),
{
    if fields.len() == 0 {
        0
    } else {
        let rest = best_score(t, fields.drop_last());
        let s = term_score(t, fields.last());
        if s > rest { s } else { rest }
    }
}

/// The rank of a query: the sum over its terms of their best rank.
pub open spec fn query_score(terms: Seq<TermView>, fields: Seq<FieldView>) -> nat
    decreases terms.len(),
{
    if terms.len() == 0 {
        0
    } else {
        query_score(terms.drop_last(), fields) + best_score(terms.last(), fields)
    }
}

/// A rank as a `u32`, saturating at `u32::MAX`.
pub open spec fn capped(n: nat) -> u32 {
    if n > u32::MAX { u32::MAX } else { n as u32 }
}

/// Some field matches the term.
pub open spec fn any_field_matches(t: TermView, fields: Seq<FieldView>) -> bool {
    exists|i: int| 0 <= i < fields.len() && term_matches(t, #[trigger] fields[i])
}

/// Every term matches some field.
pub open spec fn query_matches(terms: Seq<TermView>, fields: Seq<FieldView>) -> bool {
    forall|i: int| 0 <= i < terms.len() ==> any_field_matches(#[trigger] terms[i], fields)
}

/// Words joined by single spaces.
pub open spec fn join_words(words: Seq<Seq<char>>) -> Seq<char>
    decreases words.len(),
{
    if words.len() == 0 {
        Seq::empty()
    } else if words.len() == 1 {
        words[0]
    } else {
        join_words(words.drop_last()) + seq![' '] + words.last()
    }
}


/// Empties `v` and fills it with `len` false flags.
fn reset(v: &mut Vec<bool>, len: usize)
    ensures
        final(v)@.len() == len,
        forall|k: int| 0 <= k < len ==> !(#[trigger] final(v)@[k]),
{
    v.clear();
    let mut i: usize = 0;
    while i < len
        invariant
            i <= len,
            v@.len() == i,
            forall|k: int| 0 <= k < i ==> !(#[trigger] v@[k]),
        decreases len - i,
    {
        v.push(false);
        i = i + 1;
    }
}

/// Whether chunk `query` occurs case-insensitively in `chars` at position `i`.
fn exact_here(query: &[char], chars: &Vec<char>, i: usize) -> (r: bool)
    requires
        i + query@.len() <= chars@.len(),
    ensures
        r == forall|j: int| 0 <= j < query@.len() ==> #[trigger] chars@[i + j] == query@[j],
{
    let mut j: usize = 0;
    while j < query.len()
        invariant
            j <= query@.len(),
            i + query@.len() <= chars@.len(),
            i + query.len() <= chars.len(),
            forall|k: int| 0 <= k < j ==> #[trigger] chars@[i + k] == query@[k],
        decreases query@.len() - j,
    {
        if chars[i + j] != query[j] {
            return false;
        }
        j = j + 1;
    }
    true
}

/// The end of the first case-insensitive occurrence of the non-empty chunk `query` at or
/// after `start`.
fn first_exact(query: &[char], field: &Field, start: usize) -> (r: Option<usize>)
    requires
        query@.len() >= 1,
    ensures
        match r {
            Some(e) => e <= field@.chars.len() && e >= query@.len() && exact_at(field@, query@, start as int, e - query@.len())
                && forall|i: int| #![trigger exact_at(field@, query@, start as int, i)] i < e - query@.len() ==> !exact_at(field@, query@, start as int, i),
            None => forall|i: int| !exact_at(field@, query@, start as int, i),
        },
{
    proof {
        use_type_invariant(field);
    }
    let n = field.chars.len();
    let qn = query.len();
    if start > n || qn > n - start {
        return None;
    }
    let last = n - qn;
    let mut i = start;
    while i <= last
        invariant
            start <= i <= last + 1,
            last + qn == n,
            qn == query@.len(),
            n == field@.chars.len(),
            n == field@.folded.len(),
            qn >= 1,
            forall|i2: int| #![trigger exact_at(field@, query@, start as int, i2)] i2 < i ==> !exact_at(field@, query@, start as int, i2),
        decreases last + 1 - i,
    {
        if exact_here(query, &field.folded, i) {
            return Some(i + qn);
        }
        i = i + 1;
    }
    None
}

/// The position after the first flag set in `flags[start..hi]`.
fn first_set(flags: &Vec<bool>, start: usize, hi: usize) -> (r: Option<usize>)
    requires
        hi <= flags@.len(),
    ensures
        match r {
            Some(e) => start < e <= hi && flags@[e - 1] && forall|k: int| start <= k < e - 1 ==> !(#[trigger] flags@[k]),
            None => forall|k: int| start <= k < hi ==> !(#[trigger] flags@[k]),
        },
{
    let mut j = start;
    while j < hi
        invariant
            start <= j,
            hi <= flags@.len(),
            forall|k: int| start <= k < j ==> !(#[trigger] flags@[k]),
        decreases hi - j,
    {
        if flags[j] {
            return Some(j + 1);
        }
        j = j + 1;
    }
    None
}

/// The first end of a match of `query`, from `e` on, is `target`.
proof fn lemma_first_match_end(f: FieldView, q: Seq<char>, start: int, e: int, target: Option<int>)
    requires
        match target {
            Some(t) => e <= t <= f.chars.len() && match_ends_at(f, q, start, t) && forall|x: int|
                e <= x < t ==> !#[trigger] match_ends_at(f, q, start, x),
            None => forall|x: int| e <= x <= f.chars.len() ==> !#[trigger] match_ends_at(f, q, start, x),
        },
    ensures
        first_match_end(f, q, start, e) == target,
    decreases f.chars.len() + 1 - e,
{
    if e <= f.chars.len() {
        if !match_ends_at(f, q, start, e) {
            lemma_first_match_end(f, q, start, e + 1, target);
        }
    }
}

/// Find the earliest matching end, allowing abbreviation gaps only at word boundaries
/// within one path component. Reuse dynamic-programming buffers across terms.
fn match_end(query: &[char], field: &Field, start: usize, scratch: &mut Scratch) -> (r: Option<usize>)
    ensures
        match r {
            Some(e) => chunk_end(field@, query@, start as int) == Some(e as int),
            None => chunk_end(field@, query@, start as int) is None,
        },
{
    proof {
        use_type_invariant(field);
    }
    if query.len() == 0 {
        return Some(start);
    }
    let ghost f = field@;
    let ghost q = query@;
    let n = field.chars.len();
    let qn = query.len();
    let exact = first_exact(query, field, start);
    let hi = match exact {
        Some(e) => e,
        None => n,
    };
    let mut previous: Vec<bool> = Vec::new();
    let mut next: Vec<bool> = Vec::new();
    std::mem::swap(&mut previous, &mut scratch.previous);
    std::mem::swap(&mut next, &mut scratch.next);
    reset(&mut previous, n);
    let mut qi: usize = 0;
    while qi < qn
        invariant
            n == f.chars.len(),
            n == f.boundaries.len(),
            n == f.folded.len(),
            f == field@,
            q == query@,
            qn == q.len(),
            hi <= n,
            qi <= qn,
            previous@.len() == n,
            forall|j: int| start <= j < hi ==> #[trigger] previous@[j] == abbreviation(f, q, start as int, qi - 1, j),
        decreases qn - qi,
    {
        reset(&mut next, n);
        let mut earlier = false;
        let mut j = start;
        while j < hi
            invariant
                n == f.chars.len(),
                n == f.boundaries.len(),
                n == f.folded.len(),
                f == field@,
                q == query@,
                qn == q.len(),
                hi <= n,
                qi < qn,
                start <= j,
                j <= hi || j == start,
                previous@.len() == n,
                next@.len() == n,
                forall|k: int| start <= k < hi ==> #[trigger] previous@[k] == abbreviation(f, q, start as int, qi - 1, k),
                forall|k: int| start <= k < j ==> #[trigger] next@[k] == abbreviation(f, q, start as int, qi as int, k),
                forall|k: int| j <= k < n ==> !(#[trigger] next@[k]),
                earlier == reaches(f, q, start as int, qi - 1, j as int),
            decreases hi - j,
        {
            let character = field.chars[j];
            let ghost old_earlier = earlier;
            if character == '/' || character == '\\' {
                earlier = false;
                proof {
                    assert(!abbreviation(f, q, start as int, qi as int, j as int));
                }
            } else {
                if field.folded[j] == query[qi] {
                    let v = if qi == 0 {
                        field.boundaries[j]
                    } else {
                        (j > start && previous[j - 1]) || (field.boundaries[j] && earlier)
                    };
                    next.set(j, v);
                    proof {
                        if qi > 0 && j > start {
                            assert(previous@[j - 1] == abbreviation(f, q, start as int, qi - 1, j - 1));
                        }
                    }
                }
                proof {
                    assert(character == f.chars[j as int]);
                    assert(!is_separator(f.chars[j as int]));
                    if f.folded[j as int] == q[qi as int] {
                        if qi == 0 {
                            assert(next@[j as int] == f.boundaries[j as int]);
                            assert(next@[j as int] == abbreviation(f, q, start as int, qi as int, j as int));
                        } else {
                            if j > start {
                                assert(previous@[j - 1] == abbreviation(f, q, start as int, qi - 1, j - 1));
                            }
                            assert(next@[j as int] == ((j > start && previous@[j - 1]) || (f.boundaries[j as int] && earlier)));
                            assert(next@[j as int] == abbreviation(f, q, start as int, qi as int, j as int));
                        }
                    } else {
                        assert(!next@[j as int]);
                        assert(next@[j as int] == abbreviation(f, q, start as int, qi as int, j as int));
                    }
                }
                earlier = earlier || previous[j];
                proof {
                    assert(previous@[j as int] == abbreviation(f, q, start as int, qi - 1, j as int));
                }
            }
            j = j + 1;
        }
        std::mem::swap(&mut previous, &mut next);
        qi = qi + 1;
    }
    let result = first_set(&previous, start, hi);
    let ghost last_row = previous@;
    std::mem::swap(&mut previous, &mut scratch.previous);
    std::mem::swap(&mut next, &mut scratch.next);
    match result {
        Some(e) => {
            proof {
                assert forall|x: int| start + 1 <= x < e implies !#[trigger] match_ends_at(f, q, start as int, x) by {
                    assert(!last_row[x - 1]);
                }
                lemma_first_match_end(f, q, start as int, start + 1, Some(e as int));
            }
            Some(e)
        }
        None => {
            match exact {
                Some(b) => {
                    proof {
                        assert forall|x: int| start + 1 <= x < b implies !#[trigger] match_ends_at(f, q, start as int, x) by {
                            assert(!last_row[x - 1]);
                        }
                        lemma_first_match_end(f, q, start as int, start + 1, Some(b as int));
                    }
                    Some(b)
                }
                None => {
                    proof {
                        assert forall|x: int| start + 1 <= x <= n implies !#[trigger] match_ends_at(f, q, start as int, x) by {
                            assert(!last_row[x - 1]);
                        }
                        lemma_first_match_end(f, q, start as int, start + 1, None);
                    }
                    None
                }
            }
        }
    }
}

/// The best rank over `a + b` is the larger of the best ranks over each.
pub proof fn lemma_best_score_concat(t: TermView, a: Seq<FieldView>, b: Seq<FieldView>)
    ensures
        best_score(t, a + b) == (if best_score(t, a) > best_score(t, b) { best_score(t, a) } else { best_score(t, b) }),
    decreases b.len(),
{
    if b.len() == 0 {
        assert(a + b =~= a);
    } else {
        lemma_best_score_concat(t, a, b.drop_last());
        assert((a + b).drop_last() =~= a + b.drop_last());
        assert((a + b).last() == b.last());
    }
}

/// Some field of `a + b` matches exactly when some field of `a` or of `b` does.
pub proof fn lemma_any_match_concat(t: TermView, a: Seq<FieldView>, b: Seq<FieldView>)
    ensures
        any_field_matches(t, a + b) == (any_field_matches(t, a) || any_field_matches(t, b)),
{
    if any_field_matches(t, a + b) {
        let i = choose|i: int| 0 <= i < (a + b).len() && term_matches(t, #[trigger] (a + b)[i]);
        if i < a.len() {
            assert(term_matches(t, a[i]));
        } else {
            assert(term_matches(t, b[i - a.len()]));
        }
    }
    if any_field_matches(t, a) {
        let i = choose|i: int| 0 <= i < a.len() && term_matches(t, #[trigger] a[i]);
        assert((a + b)[i] == a[i]);
    }
    if any_field_matches(t, b) {
        let i = choose|i: int| 0 <= i < b.len() && term_matches(t, #[trigger] b[i]);
        assert((a + b)[a.len() + i] == b[i]);
    }
}

impl Term {
    fn copy(&self) -> (r: Term)
        ensures
            r@ == self@,
    {
        let text = copy_chars(&self.text);
        let mut chunks: Vec<Vec<char>> = Vec::new();
        let mut i: usize = 0;
        while i < self.chunks.len()
            invariant
                i <= self.chunks@.len(),
                chunks@.map_values(|c: Vec<char>| c@) == self.chunks@.take(i as int).map_values(|c: Vec<char>| c@),
            decreases self.chunks@.len() - i,
        {
            let ghost before = chunks@.map_values(|c: Vec<char>| c@);
            chunks.push(copy_chars(&self.chunks[i]));
            assert(chunks@.map_values(|c: Vec<char>| c@) =~= before.push(self.chunks@[i as int]@));
            assert(self.chunks@.take(i as int + 1).map_values(|c: Vec<char>| c@) =~= self.chunks@.take(i as int).map_values(|c: Vec<char>| c@).push(self.chunks@[i as int]@));
            i = i + 1;
        }
        assert(self.chunks@.take(self.chunks@.len() as int) =~= self.chunks@);
        let r = Term { text, chunks };
        assert(r@.chunks =~= self@.chunks);
        r
    }

    fn matches(&self, field: &Field, scratch: &mut Scratch) -> (r: bool)
        ensures
            r == term_matches(self@, field@),
    {
        let ghost chunks = self@.chunks;
        assert(chunks.len() == self.chunks@.len());
        assert(self@.text == self.text@);
        if self.chunks.len() == 1 && chars_contain(&field.lower, &self.text) {
            return true;
        }
        let mut start: usize = 0;
        let mut k: usize = 0;
        while k < self.chunks.len()
            invariant
                k <= self.chunks@.len(),
                chunks == self@.chunks,
                chunks.len() == self.chunks@.len(),
                chunks_match(field@, chunks, 0, 0) == chunks_match(field@, chunks, k as int, start as int),
                term_matches(self@, field@) == chunks_match(field@, chunks, 0, 0),
            decreases self.chunks@.len() - k,
        {
            assert(chunks[k as int] == self.chunks@[k as int]@);
            match match_end(&self.chunks[k], field, start, scratch) {
                Some(end) => {
                    start = end;
                }
                None => {
                    assert(!chunks_match(field@, chunks, k as int, start as int));
                    assert(field@.lower == field.lower@);
                    return false;
                }
            }
            k = k + 1;
        }
        true
    }

    fn score(&self, field: &Field, scratch: &mut Scratch) -> (r: u32)
        ensures
            r == term_score(self@, field@),
    {
        let score: u32 = if chars_equal(&field.lower, &self.text) {
            100
        } else if chars_occur_at(&field.lower, &self.text, 0) {
            80
        } else if chars_contain(&field.lower, &self.text) {
            60
        } else if self.matches(field, scratch) {
            30
        } else {
            0
        };
        if field.name { score * 2 } else { score }
    }

    fn best_score(&self, fields: &[Field], scratch: &mut Scratch) -> (r: u32)
        ensures
            r == best_score(self@, fields_view(fields@)),
            r <= 200,
    {
        let mut best: u32 = 0;
        let mut i: usize = 0;
        while i < fields.len()
            invariant
                i <= fields@.len(),
                best == best_score(self@, fields_view(fields@.take(i as int))),
                best <= 200,
            decreases fields@.len() - i,
        {
            let s = self.score(&fields[i], scratch);
            proof {
                let prefix = fields_view(fields@.take(i as int + 1));
                assert(prefix.drop_last() =~= fields_view(fields@.take(i as int)));
                assert(prefix.last() == fields@[i as int]@);
            }
            if s > best {
                best = s;
            }
            i = i + 1;
        }
        assert(fields@.take(fields@.len() as int) =~= fields@);
        best
    }
}

impl Query {
    /// Compile substring, wildcard, and word-boundary search terms.
    pub fn new(text: &str) -> (r: Self)
        ensures
            r@ == words(text@).map_values(|w: Seq<char>| term_view(w)),
    {
        let chars = chars_of(text);
        Self::from_chars(&chars)
    }

    /// Compile a query from its characters.
    pub fn from_chars(text: &[char]) -> (r: Self)
        ensures
            r@ == words(text@).map_values(|w: Seq<char>| term_view(w)),
    {
        let split = split_whitespace(text);
        let ghost ws = words(text@);
        let mut lowered: Vec<Vec<char>> = Vec::new();
        let mut i: usize = 0;
        while i < split.len()
            invariant
                i <= split@.len(),
                split@.map_values(|w: Vec<char>| w@) == ws,
                lowered@.map_values(|w: Vec<char>| w@) == ws.take(i as int).map_values(|w: Seq<char>| str_lowercase(w)),
            decreases split@.len() - i,
        {
            assert(ws[i as int] == split@[i as int]@);
            let ghost before = lowered@.map_values(|w: Vec<char>| w@);
            lowered.push(lowercase(&split[i]));
            assert(lowered@.map_values(|w: Vec<char>| w@) =~= before.push(str_lowercase(ws[i as int])));
            assert(ws.take(i as int + 1).map_values(|w: Seq<char>| str_lowercase(w)) =~= ws.take(i as int).map_values(
                |w: Seq<char>| str_lowercase(w),
            ).push(str_lowercase(ws[i as int])));
            i = i + 1;
        }
        assert(ws.take(split@.len() as int) =~= ws);
        let r = Self::from_terms(&lowered);
        assert forall|k: int| 0 <= k < ws.len() implies r@[k] == term_view(ws[k]) by {
            assert(lowered@.map_values(|w: Vec<char>| w@)[k] == lowered@[k]@);
            assert(ws.map_values(|w: Seq<char>| str_lowercase(w))[k] == str_lowercase(ws[k]));
        }
        assert(r@ =~= ws.map_values(|w: Seq<char>| term_view(w)));
        r
    }

    /// Compile a query from its terms, each already lowercased.
    pub fn from_terms(lowered: &Vec<Vec<char>>) -> (r: Self)
        ensures
            r@ == lowered@.map_values(|w: Vec<char>| lowered_term(w@)),
    {
        let mut terms: Vec<Term> = Vec::new();
        let mut i: usize = 0;
        while i < lowered.len()
            invariant
                i <= lowered@.len(),
                terms@.map_values(|t: Term| t@) == lowered@.take(i as int).map_values(|w: Vec<char>| lowered_term(w@)),
            decreases lowered@.len() - i,
        {
            let text = lowered[i].clone();
            let chunks = split_on(&text, '*');
            let term = Term { text, chunks };
            assert(term@.chunks =~= pieces(lowered@[i as int]@, '*'));
            let ghost before = terms@.map_values(|t: Term| t@);
            terms.push(term);
            assert(terms@.map_values(|t: Term| t@) =~= before.push(term@));
            assert(lowered@.take(i as int + 1).map_values(|w: Vec<char>| lowered_term(w@)) =~= lowered@.take(i as int).map_values(
                |w: Vec<char>| lowered_term(w@),
            ).push(lowered_term(lowered@[i as int]@)));
            i = i + 1;
        }
        assert(lowered@.take(lowered@.len() as int) =~= lowered@);
        Self { terms }
    }

    /// Whether the query contains no terms.
    pub fn is_empty(&self) -> (r: bool)
        ensures
            r == (self@.len() == 0),
    {
        self.terms.len() == 0
    }

    /// Check that every query term matches at least one field.
    pub fn matches(&self, fields: &[Field], scratch: &mut Scratch) -> (r: bool)
        ensures
            r == query_matches(self@, fields_view(fields@)),
    {
        let ghost fv = fields_view(fields@);
        let mut i: usize = 0;
        while i < self.terms.len()
            invariant
                i <= self.terms@.len(),
                fv == fields_view(fields@),
                forall|k: int| 0 <= k < i ==> any_field_matches(#[trigger] self@[k], fv),
            decreases self.terms@.len() - i,
        {
            if !any_matches(&self.terms[i], fields, scratch) {
                assert(!any_field_matches(self@[i as int], fv));
                return false;
            }
            i = i + 1;
        }
        true
    }

    /// Rank matching fields, preferring exact names and prefixes; the sum saturates at
    /// `u32::MAX`.
    pub fn score(&self, fields: &[Field], scratch: &mut Scratch) -> (r: u32)
        ensures
            r == capped(query_score(self@, fields_view(fields@))),
    {
        let mut total: u32 = 0;
        let mut i: usize = 0;
        while i < self.terms.len()
            invariant
                i <= self.terms@.len(),
                total == capped(query_score(self@.take(i as int), fields_view(fields@))),
            decreases self.terms@.len() - i,
        {
            let s = self.terms[i].best_score(fields, scratch);
            proof {
                assert(self@.take(i as int + 1).drop_last() =~= self@.take(i as int));
            }
            total = total.saturating_add(s);
            i = i + 1;
        }
        assert(self@.take(self@.len() as int) =~= self@);
        total
    }

    /// Keep terms not already satisfied by process metadata.
    pub fn file_terms(&self, metadata: &[Field], scratch: &mut Scratch) -> (r: Self)
        ensures
            r@ == self@.filter(|t: TermView| !any_field_matches(t, fields_view(metadata@))),
    {
        let ghost keep = |t: TermView| !any_field_matches(t, fields_view(metadata@));
        let mut terms: Vec<Term> = Vec::new();
        let mut i: usize = 0;
        while i < self.terms.len()
            invariant
                i <= self.terms@.len(),
                keep == (|t: TermView| !any_field_matches(t, fields_view(metadata@))),
                terms@.map_values(|t: Term| t@) == self@.take(i as int).filter(keep),
            decreases self.terms@.len() - i,
        {
            let matched = any_matches(&self.terms[i], metadata, scratch);
            let ghost before = terms@.map_values(|t: Term| t@);
            proof {
                assert(self@.take(i as int + 1).drop_last() =~= self@.take(i as int));
                reveal_with_fuel(Seq::filter, 1);
            }
            if !matched {
                terms.push(self.terms[i].copy());
                assert(terms@.map_values(|t: Term| t@) =~= before.push(self@[i as int]));
            } else {
                assert(terms@.map_values(|t: Term| t@) =~= before);
            }
            i = i + 1;
        }
        assert(self@.take(self@.len() as int) =~= self@);
        Self { terms }
    }

    /// Return the normalized query text.
    pub fn text(&self) -> (r: String)
        ensures
            r@ == join_words(self@.map_values(|t: TermView| t.text)),
    {
        let ghost texts = self@.map_values(|t: TermView| t.text);
        let mut out: Vec<char> = Vec::new();
        let mut i: usize = 0;
        while i < self.terms.len()
            invariant
                i <= self.terms@.len(),
                texts == self@.map_values(|t: TermView| t.text),
                out@ == join_words(texts.take(i as int)),
            decreases self.terms@.len() - i,
        {
            let ghost before = out@;
            if i > 0 {
                out.push(' ');
            }
            let mut k: usize = 0;
            while k < self.terms[i].text.len()
                invariant
                    i < self.terms@.len(),
                    k <= self.terms@[i as int].text@.len(),
                    out@ == before + (if i > 0 { seq![' '] } else { Seq::<char>::empty() }) + self.terms@[i as int].text@.take(k as int),
                decreases self.terms@[i as int].text@.len() - k,
            {
                out.push(self.terms[i].text[k]);
                assert(self.terms@[i as int].text@.take(k as int + 1) =~= self.terms@[i as int].text@.take(k as int).push(self.terms@[i as int].text@[k as int]));
                k = k + 1;
            }
            proof {
                let t = self.terms@[i as int].text@;
                assert(t.take(t.len() as int) =~= t);
                assert(texts[i as int] == t);
                assert(texts.take(i as int + 1).drop_last() =~= texts.take(i as int));
                if i == 0 {
                    assert(out@ =~= t);
                } else {
                    assert(out@ =~= before + seq![' '] + t);
                }
            }
            i = i + 1;
        }
        assert(texts.take(texts.len() as int) =~= texts);
        to_string(&out)
    }
}

/// A copy of a character vector.
fn copy_chars(v: &Vec<char>) -> (r: Vec<char>)
    ensures
        r@ == v@,
{
    let mut out: Vec<char> = Vec::new();
    let mut i: usize = 0;
    while i < v.len()
        invariant
            i <= v@.len(),
            out@ == v@.take(i as int),
        decreases v@.len() - i,
    {
        out.push(v[i]);
        assert(v@.take(i as int + 1) =~= v@.take(i as int).push(v@[i as int]));
        i = i + 1;
    }
    assert(v@.take(v@.len() as int) =~= v@);
    out
}

/// Whether some field matches the term.
fn any_matches(term: &Term, fields: &[Field], scratch: &mut Scratch) -> (r: bool)
    ensures
        r == any_field_matches(term@, fields_view(fields@)),
{
    let mut i: usize = 0;
    while i < fields.len()
        invariant
            i <= fields@.len(),
            forall|k: int| 0 <= k < i ==> !term_matches(term@, #[trigger] fields_view(fields@)[k]),
        decreases fields@.len() - i,
    {
        if term.matches(&fields[i], scratch) {
            assert(term_matches(term@, fields_view(fields@)[i as int]));
            return true;
        }
        i = i + 1;
    }
    false
}

/// The text after the last path separator of `p` (all of `p` without one).
pub open spec fn last_segment(p: Seq<char>) -> Seq<char>
    decreases p.len(),
{
    if p.len() == 0 {
        p
    } else if is_separator(p.last()) {
        Seq::empty()
    } else {
        last_segment(p.drop_last()).push(p.last())
    }
}

/// The searchable fields of one usage: its path, its file name (ranked as a name), its
/// relation and access labels, and the lock evidence where there is some.
pub open spec fn usage_field_views(u: UsageView) -> Seq<FieldView> {
    let path = utf8_lossy(u.path);
    let base = seq![
        field_view(path, false),
        field_view(last_segment(path), true),
        field_view(relation_label(u.relation), false),
        field_view(access_label(u.access), false),
    ];
    match u.lock {
        Some(l) => base.push(field_view(lock_text_view(l), false)),
        None => base,
    }
}

/// The searchable metadata of a process: PID, name (ranked as a name), user, executable
/// and working directory.
pub open spec fn metadata_views(p: ProcessView) -> Seq<FieldView> {
    seq![
        field_view(decimal(p.identity.pid as nat), false),
        field_view(p.name, true),
        field_view(p.user, false),
        field_view(utf8_lossy(p.executable), false),
        field_view(utf8_lossy(p.cwd), false),
    ]
}

/// The fields of all usages, one usage after another.
pub open spec fn flat_fields(usages: Seq<Vec<Field>>) -> Seq<FieldView>
    decreases usages.len(),
{
    if usages.len() == 0 {
        Seq::empty()
    } else {
        flat_fields(usages.drop_last()) + fields_view(usages.last()@)
    }
}

/// The fields of a sequence of usages, one usage after another.
pub open spec fn usages_fields(us: Seq<UsageView>) -> Seq<FieldView>
    decreases us.len(),
{
    if us.len() == 0 {
        Seq::empty()
    } else {
        usages_fields(us.drop_last()) + usage_field_views(us.last())
    }
}

/// All searchable fields of a process: its metadata, then the fields of each usage.
pub open spec fn process_fields(p: ProcessView) -> Seq<FieldView> {
    metadata_views(p) + usages_fields(p.usages)
}

proof fn lemma_flat_prefix(usages: Seq<Vec<Field>>, us: Seq<UsageView>, k: int)
    requires
        0 <= k <= usages.len(),
        usages.len() == us.len(),
        forall|j: int| 0 <= j < usages.len() ==> fields_view(#[trigger] usages[j]@) == usage_field_views(us[j]),
    ensures
        flat_fields(usages.take(k)) == usages_fields(us.take(k)),
    decreases k,
{
    if k > 0 {
        lemma_flat_prefix(usages, us, k - 1);
        assert(usages.take(k).drop_last() =~= usages.take(k - 1));
        assert(us.take(k).drop_last() =~= us.take(k - 1));
    }
}

/// The characters after the last separator of `p`.
fn file_name(p: &Vec<char>) -> (r: Vec<char>)
    ensures
        r@ == last_segment(p@),
{
    let mut start: usize = p.len();
    assert(p@.take(p@.len() as int) =~= p@);
    assert(p@.skip(p@.len() as int) =~= Seq::<char>::empty());
    assert(last_segment(p@) =~= last_segment(p@.take(start as int)) + p@.skip(start as int));
    while start > 0 && !(p[start - 1] == '/' || p[start - 1] == '\\')
        invariant
            start <= p@.len(),
            forall|m: int| start <= m < p@.len() ==> !is_separator(#[trigger] p@[m]),
            last_segment(p@) == last_segment(p@.take(start as int)) + p@.skip(start as int),
        decreases start,
    {
        proof {
            let t = p@.take(start as int);
            assert(t.drop_last() =~= p@.take(start - 1));
            assert(t.last() == p@[start - 1]);
            assert(p@.skip(start - 1) =~= seq![p@[start - 1]] + p@.skip(start as int));
            assert(last_segment(t) == last_segment(p@.take(start - 1)).push(p@[start - 1]));
            assert(last_segment(t) + p@.skip(start as int) =~= last_segment(p@.take(start - 1)) + p@.skip(start - 1));
        }
        start = start - 1;
    }
    proof {
        let t = p@.take(start as int);
        if start == 0 {
            assert(t.len() == 0);
        } else {
            assert(is_separator(t.last()));
        }
        assert(last_segment(t) =~= Seq::<char>::empty());
    }
    let mut out: Vec<char> = Vec::new();
    let mut i = start;
    while i < p.len()
        invariant
            start <= i <= p@.len(),
            out@ == p@.subrange(start as int, i as int),
        decreases p@.len() - i,
    {
        out.push(p[i]);
        assert(p@.subrange(start as int, i + 1) =~= p@.subrange(start as int, i as int).push(p@[i as int]));
        i = i + 1;
    }
    assert(p@.subrange(start as int, p@.len() as int) =~= p@.skip(start as int));
    assert(out@ =~= last_segment(p@));
    out
}

/// Searchable fields of one usage.
fn usage_fields(usage: &Usage) -> (r: Vec<Field>)
    ensures
        fields_view(r@) == usage_field_views(usage@),
{
    let path = lossy(&usage.path);
    let name = file_name(&path);
    let mut fields: Vec<Field> = Vec::new();
    fields.push(Field::from_chars(&path, false));
    fields.push(Field::from_chars(&name, true));
    fields.push(Field::new(usage.relation.label(), false));
    fields.push(Field::new(usage.access.label(), false));
    match &usage.lock {
        Some(lock) => {
            let text = lock.text();
            fields.push(Field::new(text.as_str(), false));
        }
        None => {}
    }
    assert(fields_view(fields@) =~= usage_field_views(usage@));
    fields
}

/// Search fields cached for one process snapshot.
pub struct ProcessIndex {
    /// Process identity and descriptive fields.
    pub metadata: Vec<Field>,
    /// Fields for each observed file usage.
    pub usages: Vec<Vec<Field>>,
}

impl ProcessIndex {
    /// All fields of the index: metadata first, then each usage's fields.
    pub open spec fn all_fields(&self) -> Seq<FieldView> {
        fields_view(self.metadata@) + flat_fields(self.usages@)
    }

    /// The index holds the fields of the process `p`.
    pub open spec fn indexes(&self, p: ProcessView) -> bool {
        &&& fields_view(self.metadata@) == metadata_views(p)
        &&& self.usages@.len() == p.usages.len()
        &&& forall|j: int| 0 <= j < self.usages@.len() ==> fields_view(#[trigger] self.usages@[j]@) == usage_field_views(p.usages[j])
    }

    /// An index of a process holds exactly the process's fields.
    pub proof fn lemma_all_fields(&self, p: ProcessView)
        requires
            self.indexes(p),
        ensures
            self.all_fields() == process_fields(p),
    {
        lemma_flat_prefix(self.usages@, p.usages, p.usages.len() as int);
        assert(self.usages@.take(p.usages.len() as int) =~= self.usages@);
        assert(p.usages.take(p.usages.len() as int) =~= p.usages);
    }

    /// Cache searchable fields for a process and its file usages.
    pub fn new(process: &Process) -> (r: Self)
        ensures
            r.indexes(process@),
    {
        let mut metadata: Vec<Field> = Vec::new();
        let pid = decimal_of(process.identity.pid as u64);
        metadata.push(Field::from_chars(&pid, false));
        metadata.push(Field::new(process.name.as_str(), true));
        metadata.push(Field::new(process.user.as_str(), false));
        let exe = lossy(&process.executable);
        metadata.push(Field::from_chars(&exe, false));
        let cwd = lossy(&process.cwd);
        metadata.push(Field::from_chars(&cwd, false));
        assert(fields_view(metadata@) =~= metadata_views(process@));
        let mut usages: Vec<Vec<Field>> = Vec::new();
        let mut i: usize = 0;
        while i < process.usages.len()
            invariant
                i <= process.usages@.len(),
                usages@.len() == i,
                forall|j: int| 0 <= j < i ==> fields_view(#[trigger] usages@[j]@) == usage_field_views(process@.usages[j]),
            decreases process.usages@.len() - i,
        {
            usages.push(usage_fields(&process.usages[i]));
            i = i + 1;
        }
        ProcessIndex { metadata, usages }
    }

    /// Whether some field of the index matches the term.
    fn any_matches(&self, term: &Term, scratch: &mut Scratch) -> (r: bool)
        ensures
            r == any_field_matches(term@, self.all_fields()),
    {
        let mut found = any_matches(term, &self.metadata, scratch);
        let mut k: usize = 0;
        proof {
            assert(self.usages@.take(0) =~= Seq::<Vec<Field>>::empty());
            assert(fields_view(self.metadata@) + flat_fields(self.usages@.take(0)) =~= fields_view(self.metadata@));
        }
        while k < self.usages.len()
            invariant
                k <= self.usages@.len(),
                found == any_field_matches(term@, fields_view(self.metadata@) + flat_fields(self.usages@.take(k as int))),
            decreases self.usages@.len() - k,
        {
            let here = any_matches(term, &self.usages[k], scratch);
            proof {
                let prefix = fields_view(self.metadata@) + flat_fields(self.usages@.take(k as int));
                let next = self.usages@.take(k as int + 1);
                assert(next.drop_last() =~= self.usages@.take(k as int));
                assert(flat_fields(next) == flat_fields(self.usages@.take(k as int)) + fields_view(self.usages@[k as int]@));
                assert(fields_view(self.metadata@) + flat_fields(next) =~= prefix + fields_view(self.usages@[k as int]@));
                lemma_any_match_concat(term@, prefix, fields_view(self.usages@[k as int]@));
            }
            found = found || here;
            k = k + 1;
        }
        assert(self.usages@.take(self.usages@.len() as int) =~= self.usages@);
        found
    }

    /// The best rank of the term over the fields of the index.
    fn best_score(&self, term: &Term, scratch: &mut Scratch) -> (r: u32)
        ensures
            r == best_score(term@, self.all_fields()),
            r <= 200,
    {
        let mut best = term.best_score(&self.metadata, scratch);
        let mut k: usize = 0;
        proof {
            assert(self.usages@.take(0) =~= Seq::<Vec<Field>>::empty());
            assert(fields_view(self.metadata@) + flat_fields(self.usages@.take(0)) =~= fields_view(self.metadata@));
        }
        while k < self.usages.len()
            invariant
                k <= self.usages@.len(),
                best <= 200,
                best == best_score(term@, fields_view(self.metadata@) + flat_fields(self.usages@.take(k as int))),
            decreases self.usages@.len() - k,
        {
            let here = term.best_score(&self.usages[k], scratch);
            proof {
                let prefix = fields_view(self.metadata@) + flat_fields(self.usages@.take(k as int));
                let next = self.usages@.take(k as int + 1);
                assert(next.drop_last() =~= self.usages@.take(k as int));
                assert(fields_view(self.metadata@) + flat_fields(next) =~= prefix + fields_view(self.usages@[k as int]@));
                lemma_best_score_concat(term@, prefix, fields_view(self.usages@[k as int]@));
            }
            if here > best {
                best = here;
            }
            k = k + 1;
        }
        assert(self.usages@.take(self.usages@.len() as int) =~= self.usages@);
        best
    }

    /// Check the query against process metadata and all usages.
    pub fn matches(&self, query: &Query, scratch: &mut Scratch) -> (r: bool)
        ensures
            r == query_matches(query@, self.all_fields()),
    {
        let mut i: usize = 0;
        while i < query.terms.len()
            invariant
                i <= query.terms@.len(),
                forall|k: int| 0 <= k < i ==> any_field_matches(#[trigger] query@[k], self.all_fields()),
            decreases query.terms@.len() - i,
        {
            if !self.any_matches(&query.terms[i], scratch) {
                assert(!any_field_matches(query@[i as int], self.all_fields()));
                return false;
            }
            i = i + 1;
        }
        true
    }

    /// Rank this process against a compiled query; the sum saturates at `u32::MAX`.
    pub fn score(&self, query: &Query, scratch: &mut Scratch) -> (r: u32)
        ensures
            r == capped(query_score(query@, self.all_fields())),
    {
        let mut total: u32 = 0;
        let mut i: usize = 0;
        while i < query.terms.len()
            invariant
                i <= query.terms@.len(),
                total == capped(query_score(query@.take(i as int), self.all_fields())),
            decreases query.terms@.len() - i,
        {
            let s = self.best_score(&query.terms[i], scratch);
            proof {
                assert(query@.take(i as int + 1).drop_last() =~= query@.take(i as int));
            }
            total = total.saturating_add(s);
            i = i + 1;
        }
        assert(query@.take(query@.len() as int) =~= query@);
        total
    }
}

} // verus!
