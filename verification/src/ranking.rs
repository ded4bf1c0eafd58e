//! Which processes and usages a query shows, and in which order.
use vstd::prelude::*;
use crate::model::{Process, ProcessView, Usage, UsageView};
use crate::search::{
    any_field_matches, capped, fields_view, metadata_views, process_fields, query_matches,
    query_score, term_view, usage_field_views, ProcessIndex, Query, Scratch, TermView,
};
use crate::text::{lowercase, str_lowercase, words};

verus! {

/// `x` inserted into `s` after every element that does not sort after it: one step of a
/// stable insertion sort.
pub open spec fn stable_insert<T>(s: Seq<T>, x: T, after: spec_fn(T, T) -> bool) -> Seq<T>
    decreases s.len(),
{
    if s.len() == 0 {
        seq![x]
    } else if after(s.last(), x) {
        stable_insert(s.drop_last(), x, after).push(s.last())
    } else {
        s.push(x)
    }
}

/// The stable sort of `s`: elements in `after` order, equal ones in their original order.
pub open spec fn stable_sort<T>(s: Seq<T>, after: spec_fn(T, T) -> bool) -> Seq<T>
    decreases s.len(),
{
    if s.len() == 0 {
        s
    } else {
        stable_insert(stable_sort(s.drop_last(), after), s.last(), after)
    }
}

/// Inserting after the last element that does not sort after `x`.
proof fn lemma_insert_at<T>(s: Seq<T>, x: T, after: spec_fn(T, T) -> bool, p: int)
    requires
        0 <= p <= s.len(),
        forall|k: int| p <= k < s.len() ==> after(#[trigger] s[k], x),
        p == 0 || !after(s[p - 1], x),
    ensures
        stable_insert(s, x, after) == s.take(p).push(x) + s.skip(p),
    decreases s.len(),
{
    if s.len() == 0 {
        assert(s.take(p).push(x) + s.skip(p) =~= seq![x]);
    } else if p == s.len() {
        assert(s.take(p).push(x) + s.skip(p) =~= s.push(x));
    } else {
        assert(after(s[s.len() - 1], x));
        let d = s.drop_last();
        lemma_insert_at(d, x, after, p);
        assert((d.take(p).push(x) + d.skip(p)).push(s.last()) =~= s.take(p).push(x) + s.skip(p));
    }
}

/// How the process table is ordered.
#[derive(Clone, Copy, Debug, PartialEq, Eq, Structural)]
pub enum Sort {
    /// Best query rank first.
    Relevance,
    /// By lowercase name.
    Name,
    /// By PID.
    Pid,
    /// Most resident memory first.
    Memory,
    /// Most CPU first.
    Cpu,
}

impl Default for Sort {
    fn default() -> (r: Self)
        ensures
            r == Sort::Relevance,
    {
        Sort::Relevance
    }
}

/// A row of the process table: a process, its usages that matched, and its rank.
#[derive(Debug)]
pub struct Row {
    /// Index of the process in the snapshot.
    pub process: usize,
    /// Indices of the matching usages of the process.
    pub usages: Vec<usize>,
    /// The query rank of the row.
    pub score: u32,
    /// On the Ports tab, the index of the row's binding among the process's ports.
    pub port: Option<usize>,
}

/// The abstract content of a row.
pub struct RowView {
    pub process: usize,
    pub usages: Seq<usize>,
    pub score: u32,
    pub port: Option<usize>,
}

impl View for Row {
    type V = RowView;

    open spec fn view(&self) -> RowView {
        RowView { process: self.process, usages: self.usages@, score: self.score, port: self.port }
    }
}

/// Copy of an index list.
fn copy_indices(v: &Vec<usize>) -> (r: Vec<usize>)
    ensures
        r@ == v@,
{
    let mut out: Vec<usize> = Vec::new();
    let mut i: usize = 0;
    while i < v.len()
        invariant
            i <= v@.len(),
            out@ == v@.take(i as int),
        decreases v@.len() - i,
    {
        out.push(v[i]);
        assert(v@.take(i as int + 1) =~= v@.take(i as int).push(v@[i as int]));
        i = i + 1;
    }
    assert(v@.take(v@.len() as int) =~= v@);
    out
}

impl Clone for Row {
    fn clone(&self) -> (r: Self)
        ensures
            r@ == self@,
    {
        Row { process: self.process, usages: copy_indices(&self.usages), score: self.score, port: self.port }
    }
}

/// The views of rows.
pub open spec fn rows_view(rows: Seq<Row>) -> Seq<RowView> {
    rows.map_values(|r: Row| r@)
}

/// Three-way comparison of integers: -1, 0 or 1.
pub open spec fn order_int(a: int, b: int) -> int {
    if a < b {
        -1
    } else if a > b {
        1
    } else {
        0
    }
}

/// Three-way comparison of optional numbers, `None` first.
pub open spec fn order_opt(a: Option<u64>, b: Option<u64>) -> int {
    match (a, b) {
        (None, None) => 0,
        (None, Some(_)) => -1,
        (Some(_), None) => 1,
        (Some(x), Some(y)) => order_int(x as int, y as int),
    }
}

/// Lexicographic three-way comparison of texts by code point, which is also the byte order
/// of their UTF-8 encodings.
pub open spec fn order_text(a: Seq<char>, b: Seq<char>) -> int
    decreases a.len(),
{
    if a.len() == 0 {
        if b.len() == 0 { 0 } else { -1 }
    } else if b.len() == 0 {
        1
    } else if (a[0] as u32) != (b[0] as u32) {
        order_int(a[0] as u32 as int, b[0] as u32 as int)
    } else {
        order_text(a.skip(1), b.skip(1))
    }
}

/// The lowercase names of the processes.
pub open spec fn lowered_names(ps: Seq<ProcessView>) -> Seq<Seq<char>> {
    ps.map_values(|p: ProcessView| str_lowercase(p.name))
}

/// The comparison of two rows under a sort, before ties are broken by PID, where the
/// processes' names compare by `names`.
pub open spec fn row_order_named(ps: Seq<ProcessView>, names: Seq<Seq<char>>, sort: Sort, a: RowView, b: RowView) -> int {
    let pa = ps[a.process as int];
    let pb = ps[b.process as int];
    match sort {
        Sort::Relevance => order_int(b.score as int, a.score as int),
        Sort::Name => order_text(names[a.process as int], names[b.process as int]),
        Sort::Pid => order_int(pa.identity.pid as int, pb.identity.pid as int),
        Sort::Memory => order_opt(pb.memory, pa.memory),
        Sort::Cpu => order_opt(pb.cpu, pa.cpu),
    }
}

/// The comparison of two rows under a sort, before ties are broken by PID; names compare
/// in lowercase.
pub open spec fn row_order(ps: Seq<ProcessView>, sort: Sort, a: RowView, b: RowView) -> int {
    row_order_named(ps, lowered_names(ps), sort, a, b)
}

/// Row `a` sorts strictly after row `b`, by the sort with names compared by `names`, then
/// by PID.
pub open spec fn row_after_named(ps: Seq<ProcessView>, names: Seq<Seq<char>>, sort: Sort, a: RowView, b: RowView) -> bool {
    let c = row_order_named(ps, names, sort, a, b);
    c > 0 || (c == 0 && ps[a.process as int].identity.pid > ps[b.process as int].identity.pid)
}

/// Row `a` sorts strictly after row `b`: by the sort, then by PID.
pub open spec fn row_after(ps: Seq<ProcessView>, sort: Sort, a: RowView, b: RowView) -> bool {
    row_after_named(ps, lowered_names(ps), sort, a, b)
}

/// The compiled terms of a query text.
pub open spec fn query_terms(text: Seq<char>) -> Seq<TermView> {
    words(text).map_values(|w: Seq<char>| term_view(w))
}

/// The terms of a query that the metadata of `p` does not already satisfy.
pub open spec fn file_query(q: Seq<TermView>, p: ProcessView) -> Seq<TermView> {
    q.filter(|t: TermView| !any_field_matches(t, metadata_views(p)))
}

/// The locked usages among the first `n` of `p` whose fields match the file terms, one
/// row each, ranked by the better of the metadata and the usage.
pub open spec fn locked_rows(p: ProcessView, i: usize, q: Seq<TermView>, n: int) -> Seq<RowView>
    decreases n,
{
    if n <= 0 {
        Seq::empty()
    } else {
        let prev = locked_rows(p, i, q, n - 1);
        let u = p.usages[n - 1];
        let fields = usage_field_views(u);
        if u.lock is Some && query_matches(file_query(q, p), fields) {
            let a = capped(query_score(q, metadata_views(p)));
            let b = capped(query_score(q, fields));
            prev.push(RowView { process: i, usages: seq![(n - 1) as usize], score: if a >= b { a } else { b }, port: None })
        } else {
            prev
        }
    }
}

/// The indices among the first `n` usages of `p` whose fields match the terms `fq`.
pub open spec fn matching_usages(p: ProcessView, fq: Seq<TermView>, n: int) -> Seq<usize>
    decreases n,
{
    if n <= 0 {
        Seq::empty()
    } else {
        let prev = matching_usages(p, fq, n - 1);
        if query_matches(fq, usage_field_views(p.usages[n - 1])) {
            prev.push((n - 1) as usize)
        } else {
            prev
        }
    }
}

/// The rows of the process `p` at index `i`: with `locked`, one per matching locked usage;
/// otherwise one row with all matching usages, when the whole process matches and some
/// usage matches the file terms.
pub open spec fn process_rows(p: ProcessView, i: usize, q: Seq<TermView>, locked: bool) -> Seq<RowView> {
    if locked {
        locked_rows(p, i, q, p.usages.len() as int)
    } else if query_matches(q, process_fields(p)) {
        let us = matching_usages(p, file_query(q, p), p.usages.len() as int);
        if us.len() > 0 {
            seq![RowView { process: i, usages: us, score: capped(query_score(q, process_fields(p))), port: None }]
        } else {
            Seq::empty()
        }
    } else {
        Seq::empty()
    }
}

/// The rows of the first `n` processes, in snapshot order.
pub open spec fn filtered_rows(ps: Seq<ProcessView>, q: Seq<TermView>, locked: bool, n: int) -> Seq<RowView>
    decreases n,
{
    if n <= 0 {
        Seq::empty()
    } else {
        filtered_rows(ps, q, locked, n - 1) + process_rows(ps[n - 1], (n - 1) as usize, q, locked)
    }
}

/// The order of rows under a sort, as a relation.
pub open spec fn row_order_fn(ps: Seq<ProcessView>, sort: Sort) -> spec_fn(RowView, RowView) -> bool {
    named_order_fn(ps, lowered_names(ps), sort)
}

/// The order of rows as a relation, names compared by `names`.
pub open spec fn named_order_fn(ps: Seq<ProcessView>, names: Seq<Seq<char>>, sort: Sort) -> spec_fn(RowView, RowView) -> bool {
    |a: RowView, b: RowView| row_after_named(ps, names, sort, a, b)
}

/// The process table for a query: the matching rows, stably sorted.
#[verifier::opaque]
pub open spec fn table_rows(ps: Seq<ProcessView>, query: Seq<char>, locked: bool, sort: Sort) -> Seq<RowView> {
    stable_sort(filtered_rows(ps, query_terms(query), locked, ps.len() as int), row_order_fn(ps, sort))
}

/// Rows refer to processes of `ps` and to existing usages, and each to a binding of its
/// process on the Ports tab or else to at least one usage.
#[verifier::opaque]
pub open spec fn rows_valid(rows: Seq<RowView>, ps: Seq<ProcessView>) -> bool {
    forall|k: int| 0 <= k < rows.len() ==> {
        let r = #[trigger] rows[k];
        &&& (r.process as int) < ps.len()
        &&& match r.port {
            Some(j) => (j as int) < ps[r.process as int].ports.len(),
            None => r.usages.len() > 0,
        }
        &&& forall|m: int| 0 <= m < r.usages.len() ==> (#[trigger] r.usages[m] as int) < ps[r.process as int].usages.len()
    }
}

/// The views of processes.
pub open spec fn processes_view(ps: Seq<Process>) -> Seq<ProcessView> {
    ps.map_values(|p: Process| p@)
}

/// The indices hold the fields of the processes, one each.
#[verifier::opaque]
pub open spec fn indexes_all(indices: Seq<ProcessIndex>, ps: Seq<ProcessView>) -> bool {
    &&& indices.len() == ps.len()
    &&& forall|i: int| 0 <= i < indices.len() ==> (#[trigger] indices[i]).indexes(ps[i])
}

/// A row is valid for `ps`.
pub open spec fn row_valid(r: RowView, ps: Seq<ProcessView>) -> bool {
    &&& (r.process as int) < ps.len()
    &&& match r.port {
        Some(j) => (j as int) < ps[r.process as int].ports.len(),
        None => r.usages.len() > 0,
    }
    &&& forall|m: int| 0 <= m < r.usages.len() ==> (#[trigger] r.usages[m] as int) < ps[r.process as int].usages.len()
}

proof fn lemma_valid_insert(s: Seq<RowView>, p: int, x: RowView, ps: Seq<ProcessView>)
    requires
        0 <= p <= s.len(),
        rows_valid(s, ps),
        row_valid(x, ps),
    ensures
        rows_valid(s.take(p).push(x) + s.skip(p), ps),
{
    reveal(rows_valid);
    let t = s.take(p).push(x) + s.skip(p);
    assert forall|k: int| 0 <= k < t.len() implies row_valid(#[trigger] t[k], ps) by {
        if k < p {
            assert(t[k] == s[k]);
        } else if k > p {
            assert(t[k] == s[k - 1]);
        }
    }
}

/// Three-way comparison of numbers.
fn order_u64(a: u64, b: u64) -> (r: i8)
    ensures
        r as int == order_int(a as int, b as int),
{
    if a < b {
        -1
    } else if a > b {
        1
    } else {
        0
    }
}

/// Three-way comparison of optional numbers, `None` first.
fn order_option(a: Option<u64>, b: Option<u64>) -> (r: i8)
    ensures
        r as int == order_opt(a, b),
{
    match (a, b) {
        (None, None) => 0,
        (None, Some(_)) => -1,
        (Some(_), None) => 1,
        (Some(x), Some(y)) => order_u64(x, y),
    }
}

/// Lexicographic three-way comparison of texts by code point.
fn text_order(a: &Vec<char>, b: &Vec<char>) -> (r: i8)
    ensures
        r as int == order_text(a@, b@),
{
    let mut i: usize = 0;
    assert(a@.skip(0) =~= a@);
    assert(b@.skip(0) =~= b@);
    while i < a.len() && i < b.len()
        invariant
            i <= a@.len(),
            i <= b@.len(),
            order_text(a@, b@) == order_text(a@.skip(i as int), b@.skip(i as int)),
        decreases a@.len() - i,
    {
        let x = a[i] as u32;
        let y = b[i] as u32;
        assert(a@.skip(i as int)[0] == a@[i as int]);
        assert(b@.skip(i as int)[0] == b@[i as int]);
        if x != y {
            return if x < y { -1 } else { 1 };
        }
        assert(a@.skip(i as int).skip(1) =~= a@.skip(i as int + 1));
        assert(b@.skip(i as int).skip(1) =~= b@.skip(i as int + 1));
        i = i + 1;
    }
    if i == a.len() {
        if i == b.len() { 0 } else { -1 }
    } else {
        1
    }
}

/// The lowercase names of the processes.
fn lower_names(ps: &Vec<Process>) -> (r: Vec<Vec<char>>)
    ensures
        r@.len() == ps@.len(),
        r@.map_values(|v: Vec<char>| v@) == lowered_names(processes_view(ps@)),
{
    let mut out: Vec<Vec<char>> = Vec::new();
    let mut i: usize = 0;
    while i < ps.len()
        invariant
            i <= ps@.len(),
            out@.len() == i,
            forall|k: int| 0 <= k < i ==> (#[trigger] out@[k])@ == str_lowercase(ps@[k]@.name),
        decreases ps@.len() - i,
    {
        let chars = crate::text::chars_of(ps[i].name.as_str());
        out.push(lowercase(&chars));
        i = i + 1;
    }
    assert(out@.map_values(|v: Vec<char>| v@) =~= lowered_names(processes_view(ps@)));
    out
}

/// Whether row `a` sorts strictly after row `b`.
fn row_is_after(ps: &Vec<Process>, names: &Vec<Vec<char>>, sort: Sort, a: &Row, b: &Row) -> (r: bool)
    requires
        (a.process as int) < ps@.len(),
        (b.process as int) < ps@.len(),
        names@.len() == ps@.len(),
    ensures
        r == row_after_named(processes_view(ps@), names@.map_values(|v: Vec<char>| v@), sort, a@, b@),
{
    let pa = &ps[a.process];
    let pb = &ps[b.process];
    let c: i8 = match sort {
        Sort::Relevance => order_u64(b.score as u64, a.score as u64),
        Sort::Name => text_order(&names[a.process], &names[b.process]),
        Sort::Pid => order_u64(pa.identity.pid as u64, pb.identity.pid as u64),
        Sort::Memory => order_option(pb.memory, pa.memory),
        Sort::Cpu => order_option(pb.cpu, pa.cpu),
    };
    c > 0 || (c == 0 && pa.identity.pid > pb.identity.pid)
}

/// Stably sort rows by the given order.
pub fn sort_rows(rows: &Vec<Row>, ps: &Vec<Process>, sort: Sort) -> (r: Vec<Row>)
    requires
        rows_valid(rows_view(rows@), processes_view(ps@)),
    ensures
        rows_view(r@) == stable_sort(rows_view(rows@), row_order_fn(processes_view(ps@), sort)),
        rows_valid(rows_view(r@), processes_view(ps@)),
{
    let names = lower_names(ps);
    sort_rows_named(rows, ps, &names, sort)
}

/// Stably sort rows by the given order, with the processes' names compared by `names`.
pub fn sort_rows_named(rows: &Vec<Row>, ps: &Vec<Process>, names: &Vec<Vec<char>>, sort: Sort) -> (r: Vec<Row>)
    requires
        rows_valid(rows_view(rows@), processes_view(ps@)),
        names@.len() == ps@.len(),
    ensures
        rows_view(r@) == stable_sort(rows_view(rows@), named_order_fn(processes_view(ps@), names@.map_values(|v: Vec<char>| v@), sort)),
        rows_valid(rows_view(r@), processes_view(ps@)),
{
    reveal(rows_valid);
    let ghost nv = names@.map_values(|v: Vec<char>| v@);
    let ghost pv = processes_view(ps@);
    let ghost after = named_order_fn(pv, nv, sort);
    let ghost input = rows_view(rows@);
    let mut out: Vec<Row> = Vec::new();
    let mut i: usize = 0;
    assert(input.take(0) =~= Seq::<RowView>::empty());
    while i < rows.len()
        invariant
            i <= rows@.len(),
            pv == processes_view(ps@),
            after == named_order_fn(pv, nv, sort),
            nv == names@.map_values(|v: Vec<char>| v@),
            input == rows_view(rows@),
            rows_valid(input, pv),
            names@.len() == ps@.len(),
            rows_view(out@) == stable_sort(input.take(i as int), after),
            rows_valid(rows_view(out@), pv),
        decreases rows@.len() - i,
    {
        proof {
            reveal(rows_valid);
        }
        let x = rows[i].clone();
        assert(row_valid(input[i as int], pv));
        let ghost before = rows_view(out@);
        assert forall|k: int| 0 <= k < out@.len() implies ((#[trigger] out@[k]).process as int) < ps@.len() by {
            assert(row_valid(before[k], pv));
        }
        let mut p: usize = out.len();
        while p > 0 && row_is_after(ps, &names, sort, &out[p - 1], &x)
            invariant
                p <= out@.len(),
                before == rows_view(out@),
                pv == processes_view(ps@),
                after == named_order_fn(pv, nv, sort),
            nv == names@.map_values(|v: Vec<char>| v@),
                rows_valid(before, pv),
                row_valid(x@, pv),
                names@.len() == ps@.len(),
                    forall|k: int| p <= k < before.len() ==> after(#[trigger] before[k], x@),
                forall|k: int| 0 <= k < out@.len() ==> ((#[trigger] out@[k]).process as int) < ps@.len(),
            decreases p,
        {
            proof {
                reveal(rows_valid);
            }
            assert(row_valid(before[p - 1], pv));
            p = p - 1;
        }
        proof {
            if p > 0 {
                assert(row_valid(before[p - 1], pv));
            }
            lemma_insert_at(before, x@, after, p as int);
            lemma_valid_insert(before, p as int, x@, pv);
            assert(input.take(i as int + 1).drop_last() =~= input.take(i as int));
        }
        out.insert(p, x);
        assert(rows_view(out@) =~= before.take(p as int).push(input[i as int]) + before.skip(p as int));
        i = i + 1;
    }
    assert(input.take(rows@.len() as int) =~= input);
    out
}

proof fn lemma_locked_rows_valid(p: ProcessView, i: usize, q: Seq<TermView>, n: int, ps: Seq<ProcessView>)
    requires
        0 <= n <= p.usages.len(),
        (i as int) < ps.len(),
        ps[i as int] == p,
    ensures
        rows_valid(locked_rows(p, i, q, n), ps),
    decreases n,
{
    reveal(rows_valid);
    if n > 0 {
        lemma_locked_rows_valid(p, i, q, n - 1, ps);
        let prev = locked_rows(p, i, q, n - 1);
        let r = locked_rows(p, i, q, n);
        assert forall|k: int| 0 <= k < r.len() implies row_valid(#[trigger] r[k], ps) by {
            if k < prev.len() {
                assert(r[k] == prev[k]);
                assert(row_valid(prev[k], ps));
            }
        }
    }
}

proof fn lemma_matching_bounded(p: ProcessView, fq: Seq<TermView>, n: int)
    requires
        0 <= n <= p.usages.len(),
        n <= usize::MAX,
    ensures
        forall|m: int| 0 <= m < matching_usages(p, fq, n).len() ==> (#[trigger] matching_usages(p, fq, n)[m] as int) < n,
    decreases n,
{
    if n > 0 {
        lemma_matching_bounded(p, fq, n - 1);
        let prev = matching_usages(p, fq, n - 1);
        let cur = matching_usages(p, fq, n);
        assert forall|m: int| 0 <= m < cur.len() implies (#[trigger] cur[m] as int) < n by {
            if m < prev.len() {
                assert(cur[m] == prev[m]);
            }
        }
    }
}

proof fn lemma_process_rows_valid(p: ProcessView, i: usize, q: Seq<TermView>, locked: bool, ps: Seq<ProcessView>)
    requires
        (i as int) < ps.len(),
        ps[i as int] == p,
        p.usages.len() <= usize::MAX,
    ensures
        rows_valid(process_rows(p, i, q, locked), ps),
{
    reveal(rows_valid);
    if locked {
        lemma_locked_rows_valid(p, i, q, p.usages.len() as int, ps);
    } else {
        lemma_matching_bounded(p, file_query(q, p), p.usages.len() as int);
    }
}

/// The rows of one process for a compiled query.
fn rows_of_process(p: &Process, i: usize, index: &ProcessIndex, query: &Query, locked: bool, scratch: &mut Scratch) -> (r: Vec<Row>)
    requires
        index.indexes(p@),
    ensures
        rows_view(r@) == process_rows(p@, i, query@, locked),
{
    let mut out: Vec<Row> = Vec::new();
    let file_q = query.file_terms(&index.metadata, scratch);
    assert(file_q@ =~= file_query(query@, p@));
    if locked {
        let mut j: usize = 0;
        while j < p.usages.len()
            invariant
                j <= p.usages@.len(),
                index.indexes(p@),
                file_q@ == file_query(query@, p@),
                rows_view(out@) == locked_rows(p@, i, query@, j as int),
            decreases p.usages@.len() - j,
        {
            let ghost u = p@.usages[j as int];
            assert(fields_view(index.usages@[j as int]@) == usage_field_views(u));
            if p.usages[j].lock.is_some() && file_q.matches(&index.usages[j], scratch) {
                let a = query.score(&index.metadata, scratch);
                let b = query.score(&index.usages[j], scratch);
                let mut us: Vec<usize> = Vec::new();
                us.push(j);
                let ghost before = rows_view(out@);
                out.push(Row { process: i, usages: us, score: if a >= b { a } else { b }, port: None });
                assert(rows_view(out@) =~= before.push(rows_view(out@).last()));
            }
            j = j + 1;
        }
    } else if index.matches(query, scratch) {
        proof {
            index.lemma_all_fields(p@);
        }
        let mut us: Vec<usize> = Vec::new();
        let mut j: usize = 0;
        while j < p.usages.len()
            invariant
                j <= p.usages@.len(),
                index.indexes(p@),
                file_q@ == file_query(query@, p@),
                us@ == matching_usages(p@, file_q@, j as int),
            decreases p.usages@.len() - j,
        {
            assert(fields_view(index.usages@[j as int]@) == usage_field_views(p@.usages[j as int]));
            if file_q.matches(&index.usages[j], scratch) {
                us.push(j);
            }
            j = j + 1;
        }
        if us.len() > 0 {
            let score = index.score(query, scratch);
            out.push(Row { process: i, usages: us, score, port: None });
            assert(rows_view(out@) =~= process_rows(p@, i, query@, locked));
        }
    } else {
        proof {
            index.lemma_all_fields(p@);
        }
    }
    out
}

/// The rows of all processes for a compiled query, in snapshot order.
fn matching_rows(ps: &Vec<Process>, indices: &Vec<ProcessIndex>, query: &Query, locked: bool) -> (r: Vec<Row>)
    requires
        indexes_all(indices@, processes_view(ps@)),
    ensures
        rows_view(r@) == filtered_rows(processes_view(ps@), query@, locked, ps@.len() as int),
        rows_valid(rows_view(r@), processes_view(ps@)),
{
    reveal(rows_valid);
    let ghost pv = processes_view(ps@);
    let mut scratch = Scratch::default();
    let mut out: Vec<Row> = Vec::new();
    let mut i: usize = 0;
    proof {
        reveal(indexes_all);
    }
    while i < ps.len()
        invariant
            i <= ps@.len(),
            pv == processes_view(ps@),
            indexes_all(indices@, pv),
            rows_view(out@) == filtered_rows(pv, query@, locked, i as int),
            rows_valid(rows_view(out@), pv),
        decreases ps@.len() - i,
    {
        proof {
            reveal(rows_valid);
        reveal(indexes_all);
        }
        assert(indices@[i as int].indexes(pv[i as int]));
        let mut more = rows_of_process(&ps[i], i, &indices[i], query, locked, &mut scratch);
        let ghost before = rows_view(out@);
        let ghost added = rows_view(more@);
        let count = ps[i].usages.len();
        proof {
            lemma_process_rows_valid(pv[i as int], i, query@, locked, pv);
        }
        out.append(&mut more);
        assert(rows_view(out@) =~= before + added);
        assert forall|k: int| 0 <= k < rows_view(out@).len() implies row_valid(#[trigger] rows_view(out@)[k], pv) by {
            if k < before.len() {
                assert(row_valid(before[k], pv));
            } else {
                assert(rows_view(out@)[k] == added[k - before.len()]);
                assert(row_valid(added[k - before.len()], pv));
            }
        }
        i = i + 1;
    }
    out
}

/// The process table for a query text: the matching rows, stably sorted.
pub fn table(ps: &Vec<Process>, indices: &Vec<ProcessIndex>, query: &str, locked: bool, sort: Sort) -> (r: Vec<Row>)
    requires
        indexes_all(indices@, processes_view(ps@)),
    ensures
        rows_view(r@) == table_rows(processes_view(ps@), query@, locked, sort),
        rows_valid(rows_view(r@), processes_view(ps@)),
{
    let q = Query::new(query);
    let rows = matching_rows(ps, indices, &q, locked);
    proof {
        reveal(table_rows);
    }
    sort_rows(&rows, ps, sort)
}

/// The usages among the first `n` of `p` that its details show, with their ranks, in usage
/// order: only locked ones with `locks`, only the one equal to `scope` when there is one,
/// and only those whose fields match the terms `q`.
pub open spec fn detail_candidates(p: ProcessView, q: Seq<TermView>, locks: bool, scope: Option<UsageView>, n: int) -> Seq<(usize, u32)>
    decreases n,
{
    if n <= 0 {
        Seq::empty()
    } else {
        let prev = detail_candidates(p, q, locks, scope, n - 1);
        let u = p.usages[n - 1];
        let fields = usage_field_views(u);
        if (locks && u.lock is None) || (scope is Some && scope != Some(u)) {
            prev
        } else if query_matches(q, fields) {
            prev.push(((n - 1) as usize, capped(query_score(q, fields))))
        } else {
            prev
        }
    }
}

/// Ranked usages in descending rank, as a relation: `a` after `b` when it ranks lower.
pub open spec fn rank_order_fn() -> spec_fn((usize, u32), (usize, u32)) -> bool {
    |a: (usize, u32), b: (usize, u32)| a.1 < b.1
}

/// The usage indices the details of `p` list for a query text, best rank first and in usage
/// order among equal ranks.
#[verifier::opaque]
pub open spec fn detail_rows(p: ProcessView, query: Seq<char>, locks: bool, scope: Option<UsageView>) -> Seq<usize> {
    stable_sort(detail_candidates(p, query_terms(query), locks, scope, p.usages.len() as int), rank_order_fn()).map_values(
        |c: (usize, u32)| c.0,
    )
}

/// Stably sort ranked usages, best rank first.
fn sort_ranked(v: &Vec<(usize, u32)>) -> (r: Vec<(usize, u32)>)
    ensures
        r@ == stable_sort(v@, rank_order_fn()),
{
    let ghost after = rank_order_fn();
    let mut out: Vec<(usize, u32)> = Vec::new();
    let mut i: usize = 0;
    assert(v@.take(0) =~= Seq::<(usize, u32)>::empty());
    while i < v.len()
        invariant
            i <= v@.len(),
            after == rank_order_fn(),
            out@ == stable_sort(v@.take(i as int), after),
        decreases v@.len() - i,
    {
        let x = v[i];
        let mut p: usize = out.len();
        while p > 0 && out[p - 1].1 < x.1
            invariant
                p <= out@.len(),
                after == rank_order_fn(),
                forall|k: int| p <= k < out@.len() ==> after(#[trigger] out@[k], x),
            decreases p,
        {
            p = p - 1;
        }
        proof {
            lemma_insert_at(out@, x, after, p as int);
            assert(v@.take(i as int + 1).drop_last() =~= v@.take(i as int));
        }
        let ghost before = out@;
        out.insert(p, x);
        assert(out@ =~= before.take(p as int).push(x) + before.skip(p as int));
        i = i + 1;
    }
    assert(v@.take(v@.len() as int) =~= v@);
    out
}

/// The usage indices the details of `p` list for a query text.
pub fn detail_usages(p: &Process, index: &ProcessIndex, query: &str, locks: bool, scope: &Option<Usage>) -> (r: Vec<usize>)
    requires
        index.indexes(p@),
    ensures
        r@ == detail_rows(p@, query@, locks, match scope {
            Some(u) => Some(u@),
            None => None,
        }),
{
    let ghost sv = match scope {
        Some(u) => Some(u@),
        None => None::<UsageView>,
    };
    let q = Query::new(query);
    let mut scratch = Scratch::default();
    let mut ranked: Vec<(usize, u32)> = Vec::new();
    let mut j: usize = 0;
    while j < p.usages.len()
        invariant
            j <= p.usages@.len(),
            index.indexes(p@),
            q@ == query_terms(query@),
            sv == (match scope {
                Some(u) => Some(u@),
                None => None::<UsageView>,
            }),
            ranked@ == detail_candidates(p@, q@, locks, sv, j as int),
        decreases p.usages@.len() - j,
    {
        let u = &p.usages[j];
        let out_of_scope = match scope {
            Some(s) => !s.same_as(u),
            None => false,
        };
        assert(fields_view(index.usages@[j as int]@) == usage_field_views(p@.usages[j as int]));
        if (locks && u.lock.is_none()) || out_of_scope {
        } else if q.matches(&index.usages[j], &mut scratch) {
            let score = q.score(&index.usages[j], &mut scratch);
            ranked.push((j, score));
        }
        j = j + 1;
    }
    let sorted = sort_ranked(&ranked);
    let mut out: Vec<usize> = Vec::new();
    let mut k: usize = 0;
    while k < sorted.len()
        invariant
            k <= sorted@.len(),
            out@ == sorted@.take(k as int).map_values(|c: (usize, u32)| c.0),
        decreases sorted@.len() - k,
    {
        out.push(sorted[k].0);
        assert(sorted@.take(k as int + 1).map_values(|c: (usize, u32)| c.0) =~= sorted@.take(k as int).map_values(
            |c: (usize, u32)| c.0,
        ).push(sorted@[k as int].0));
        k = k + 1;
    }
    assert(sorted@.take(sorted@.len() as int) =~= sorted@);
    proof {
        reveal(detail_rows);
    }
    out
}

proof fn lemma_insert_members<T>(s: Seq<T>, x: T, after: spec_fn(T, T) -> bool)
    ensures
        forall|y: T| stable_insert(s, x, after).contains(y) ==> y == x || s.contains(y),
    decreases s.len(),
{
    if s.len() > 0 && after(s.last(), x) {
        lemma_insert_members(s.drop_last(), x, after);
        let r = stable_insert(s.drop_last(), x, after);
        assert forall|y: T| r.push(s.last()).contains(y) implies y == x || s.contains(y) by {
            if r.push(s.last()).contains(y) {
                let k = choose|k: int| 0 <= k < r.push(s.last()).len() && r.push(s.last())[k] == y;
                if k < r.len() {
                    assert(r.contains(y));
                    if y != x {
                        assert(s.drop_last().contains(y));
                        let m = choose|m: int| 0 <= m < s.drop_last().len() && s.drop_last()[m] == y;
                        assert(s[m] == y);
                    }
                } else {
                    assert(s[s.len() - 1] == y);
                }
            }
        }
    } else if s.len() > 0 {
        assert forall|y: T| s.push(x).contains(y) implies y == x || s.contains(y) by {
            if s.push(x).contains(y) {
                let k = choose|k: int| 0 <= k < s.push(x).len() && s.push(x)[k] == y;
                if k < s.len() {
                    assert(s[k] == y);
                }
            }
        }
    } else {
        assert forall|y: T| seq![x].contains(y) implies y == x || s.contains(y) by {
            if seq![x].contains(y) {
                let k = choose|k: int| 0 <= k < 1 && seq![x][k] == y;
            }
        }
    }
}

/// Sorting keeps only elements of the sequence.
pub proof fn lemma_sort_members<T>(s: Seq<T>, after: spec_fn(T, T) -> bool)
    ensures
        forall|y: T| stable_sort(s, after).contains(y) ==> s.contains(y),
    decreases s.len(),
{
    if s.len() > 0 {
        lemma_sort_members(s.drop_last(), after);
        lemma_insert_members(stable_sort(s.drop_last(), after), s.last(), after);
        assert forall|y: T| stable_sort(s, after).contains(y) implies s.contains(y) by {
            if y == s.last() {
                assert(s[s.len() - 1] == y);
            } else {
                assert(s.drop_last().contains(y));
                let m = choose|m: int| 0 <= m < s.drop_last().len() && s.drop_last()[m] == y;
                assert(s[m] == y);
            }
        }
    }
}

proof fn lemma_candidates_bounded(p: ProcessView, q: Seq<TermView>, locks: bool, scope: Option<UsageView>, n: int)
    requires
        0 <= n <= p.usages.len(),
        n <= usize::MAX,
    ensures
        forall|c: (usize, u32)| detail_candidates(p, q, locks, scope, n).contains(c) ==> (c.0 as int) < n,
    decreases n,
{
    if n > 0 {
        lemma_candidates_bounded(p, q, locks, scope, n - 1);
        let prev = detail_candidates(p, q, locks, scope, n - 1);
        let cur = detail_candidates(p, q, locks, scope, n);
        assert forall|c: (usize, u32)| cur.contains(c) implies (c.0 as int) < n by {
            let k = choose|k: int| 0 <= k < cur.len() && cur[k] == c;
            if k < prev.len() {
                assert(prev[k] == c);
                assert(prev.contains(c));
            }
        }
    }
}

/// The usages the details list exist.
pub proof fn lemma_detail_rows_bounded(p: ProcessView, query: Seq<char>, locks: bool, scope: Option<UsageView>)
    requires
        p.usages.len() <= usize::MAX,
    ensures
        forall|k: int| 0 <= k < detail_rows(p, query, locks, scope).len() ==> (#[trigger] detail_rows(p, query, locks, scope)[k] as int) < p.usages.len(),
{
    reveal(detail_rows);
    let c = detail_candidates(p, query_terms(query), locks, scope, p.usages.len() as int);
    let sorted = stable_sort(c, rank_order_fn());
    lemma_candidates_bounded(p, query_terms(query), locks, scope, p.usages.len() as int);
    lemma_sort_members(c, rank_order_fn());
    assert forall|k: int| 0 <= k < sorted.len() implies (#[trigger] sorted[k].0 as int) < p.usages.len() by {
        assert(sorted.contains(sorted[k]));
        assert(c.contains(sorted[k]));
    }
    assert forall|k: int| 0 <= k < detail_rows(p, query, locks, scope).len() implies (#[trigger] detail_rows(p, query, locks, scope)[k] as int) < p.usages.len() by {
        assert(detail_rows(p, query, locks, scope)[k] == sorted[k].0);
    }
}

// ----- the Ports tab -----

/// A binding of `p` matches the port query text `q`.
pub open spec fn port_matches(q: Seq<char>, p: ProcessView, port: crate::ports::Port) -> bool {
    crate::ports::port_query_matches(crate::ports::port_query_view(q), port, crate::ports::port_index_views(p, port))
}

/// The port rows of the first `n` bindings of process `i`: one per binding that matches.
pub open spec fn process_port_rows(p: ProcessView, i: usize, q: Seq<char>, n: int) -> Seq<RowView>
    decreases n,
{
    if n <= 0 {
        Seq::empty()
    } else {
        process_port_rows(p, i, q, n - 1) + if port_matches(q, p, p.ports[n - 1]) {
            seq![RowView { process: i, usages: Seq::empty(), score: 0, port: Some((n - 1) as usize) }]
        } else {
            Seq::empty()
        }
    }
}

/// The port rows of the first `n` processes: each binding of a process in scope (every
/// process, or only those that use the target) that matches the query, in snapshot order.
pub open spec fn port_rows_upto(ps: Seq<ProcessView>, q: Seq<char>, all: bool, n: int) -> Seq<RowView>
    decreases n,
{
    if n <= 0 {
        Seq::empty()
    } else {
        port_rows_upto(ps, q, all, n - 1) + if all || ps[n - 1].usages.len() > 0 {
            process_port_rows(ps[n - 1], (n - 1) as usize, q, ps[n - 1].ports.len() as int)
        } else {
            Seq::empty()
        }
    }
}

/// The Ports tab: one row per binding of a process in scope that matches the query.
#[verifier::opaque]
pub open spec fn port_table_rows(ps: Seq<ProcessView>, q: Seq<char>, all: bool) -> Seq<RowView> {
    port_rows_upto(ps, q, all, ps.len() as int)
}

proof fn lemma_process_port_rows_valid(p: ProcessView, i: usize, q: Seq<char>, n: int, ps: Seq<ProcessView>)
    requires
        0 <= n <= p.ports.len(),
        (i as int) < ps.len(),
        ps[i as int] == p,
    ensures
        rows_valid(process_port_rows(p, i, q, n), ps),
    decreases n,
{
    reveal(rows_valid);
    if n > 0 {
        lemma_process_port_rows_valid(p, i, q, n - 1, ps);
        let prev = process_port_rows(p, i, q, n - 1);
        let r = process_port_rows(p, i, q, n);
        assert forall|k: int| 0 <= k < r.len() implies row_valid(#[trigger] r[k], ps) by {
            if k < prev.len() {
                assert(r[k] == prev[k]);
                assert(row_valid(prev[k], ps));
            }
        }
    }
}

proof fn lemma_port_rows_valid(ps: Seq<ProcessView>, q: Seq<char>, all: bool, n: int)
    requires
        0 <= n <= ps.len(),
        ps.len() <= usize::MAX,
    ensures
        rows_valid(port_rows_upto(ps, q, all, n), ps),
    decreases n,
{
    reveal(rows_valid);
    if n > 0 {
        lemma_port_rows_valid(ps, q, all, n - 1);
        let prev = port_rows_upto(ps, q, all, n - 1);
        let more = if all || ps[n - 1].usages.len() > 0 {
            process_port_rows(ps[n - 1], (n - 1) as usize, q, ps[n - 1].ports.len() as int)
        } else {
            Seq::empty()
        };
        if all || ps[n - 1].usages.len() > 0 {
            lemma_process_port_rows_valid(ps[n - 1], (n - 1) as usize, q, ps[n - 1].ports.len() as int, ps);
        }
        let r = port_rows_upto(ps, q, all, n);
        assert(r == prev + more);
        assert forall|k: int| 0 <= k < r.len() implies row_valid(#[trigger] r[k], ps) by {
            if k < prev.len() {
                assert(r[k] == prev[k]);
                assert(row_valid(prev[k], ps));
            } else {
                assert(r[k] == more[k - prev.len()]);
                assert(row_valid(more[k - prev.len()], ps));
            }
        }
    }
}

/// The port rows are valid rows.
pub proof fn lemma_port_table_valid(ps: Seq<ProcessView>, q: Seq<char>, all: bool)
    requires
        ps.len() <= usize::MAX,
    ensures
        rows_valid(port_table_rows(ps, q, all), ps),
{
    reveal(port_table_rows);
    lemma_port_rows_valid(ps, q, all, ps.len() as int);
}

/// The Ports tab rows: each binding of a process in scope (every process when `all`, else
/// those that use the target) that matches the port query text `q`.
pub fn port_table(ps: &Vec<Process>, q: &str, all: bool) -> (r: Vec<Row>)
    ensures
        rows_view(r@) == port_table_rows(processes_view(ps@), q@, all),
        rows_valid(rows_view(r@), processes_view(ps@)),
{
    let ghost pv = processes_view(ps@);
    let query = crate::ports::PortQuery::new(q);
    let mut scratch = crate::search::Scratch::default();
    let mut out: Vec<Row> = Vec::new();
    let mut i: usize = 0;
    while i < ps.len()
        invariant
            i <= ps@.len(),
            pv == processes_view(ps@),
            query@ == crate::ports::port_query_view(q@),
            rows_view(out@) == port_rows_upto(pv, q@, all, i as int),
        decreases ps@.len() - i,
    {
        let p = &ps[i];
        assert(pv[i as int] == p@);
        if all || p.usages.len() > 0 {
            let mut j: usize = 0;
            let ghost base = rows_view(out@);
            while j < p.ports.len()
                invariant
                    i < ps@.len(),
                    j <= p.ports@.len(),
                    p@ == pv[i as int],
                    query@ == crate::ports::port_query_view(q@),
                    rows_view(out@) == base + process_port_rows(p@, i, q@, j as int),
                decreases p.ports@.len() - j,
            {
                let port = p.ports[j];
                let index = crate::ports::PortIndex::new(p, &port);
                let ghost before = rows_view(out@);
                if query.matches(&port, &index, &mut scratch) {
                    out.push(Row { process: i, usages: Vec::new(), score: 0, port: Some(j) });
                    assert(rows_view(out@) =~= before.push(RowView { process: i, usages: Seq::empty(), score: 0, port: Some(j) }));
                }
                assert(rows_view(out@) =~= base + process_port_rows(p@, i, q@, j as int + 1));
                j = j + 1;
            }
            assert(p@.ports.len() == p.ports@.len());
        } else {
            assert(rows_view(out@) =~= port_rows_upto(pv, q@, all, i as int) + Seq::<RowView>::empty());
        }
        assert(rows_view(out@) =~= port_rows_upto(pv, q@, all, i as int + 1));
        i = i + 1;
    }
    proof {
        reveal(port_table_rows);
        lemma_port_table_valid(pv, q@, all);
    }
    out
}

/// The bindings of `p`, among the first `n`, that match both the port query `q` and the
/// detail query `dq`.
pub open spec fn detail_ports_upto(p: ProcessView, q: Seq<char>, dq: Seq<char>, n: int) -> Seq<usize>
    decreases n,
{
    if n <= 0 {
        Seq::empty()
    } else {
        detail_ports_upto(p, q, dq, n - 1) + if port_matches(q, p, p.ports[n - 1]) && port_matches(dq, p, p.ports[n - 1]) {
            seq![(n - 1) as usize]
        } else {
            Seq::empty()
        }
    }
}

/// The bindings a process's port details list: those matching the port query and the
/// detail query.
pub open spec fn detail_port_rows(p: ProcessView, q: Seq<char>, dq: Seq<char>) -> Seq<usize> {
    detail_ports_upto(p, q, dq, p.ports.len() as int)
}

proof fn lemma_detail_ports_bounded(p: ProcessView, q: Seq<char>, dq: Seq<char>, n: int)
    requires
        0 <= n <= p.ports.len(),
    ensures
        forall|k: int| 0 <= k < detail_ports_upto(p, q, dq, n).len() ==> (#[trigger] detail_ports_upto(p, q, dq, n)[k] as int) < n,
    decreases n,
{
    if n > 0 {
        lemma_detail_ports_bounded(p, q, dq, n - 1);
        let prev = detail_ports_upto(p, q, dq, n - 1);
        let r = detail_ports_upto(p, q, dq, n);
        assert forall|k: int| 0 <= k < r.len() implies (#[trigger] r[k] as int) < n by {
            if k < prev.len() {
                assert(r[k] == prev[k]);
            }
        }
    }
}

/// The bindings a process's port details list.
pub fn detail_ports(p: &Process, q: &str, dq: &str) -> (r: Vec<usize>)
    ensures
        r@ == detail_port_rows(p@, q@, dq@),
        forall|k: int| 0 <= k < r@.len() ==> (#[trigger] r@[k] as int) < p@.ports.len(),
{
    let query = crate::ports::PortQuery::new(q);
    let detail = crate::ports::PortQuery::new(dq);
    let mut scratch = crate::search::Scratch::default();
    let mut out: Vec<usize> = Vec::new();
    let mut j: usize = 0;
    while j < p.ports.len()
        invariant
            j <= p.ports@.len(),
            query@ == crate::ports::port_query_view(q@),
            detail@ == crate::ports::port_query_view(dq@),
            out@ == detail_ports_upto(p@, q@, dq@, j as int),
        decreases p.ports@.len() - j,
    {
        let port = p.ports[j];
        let index = crate::ports::PortIndex::new(p, &port);
        if query.matches(&port, &index, &mut scratch) && detail.matches(&port, &index, &mut scratch) {
            out.push(j);
        }
        assert(out@ =~= detail_ports_upto(p@, q@, dq@, j as int + 1));
        j = j + 1;
    }
    proof {
        lemma_detail_ports_bounded(p@, q@, dq@, p@.ports.len() as int);
    }
    out
}

/// No element sorts after a later one.
pub open spec fn sorted_by<T>(s: Seq<T>, after: spec_fn(T, T) -> bool) -> bool {
    forall|i: int, j: int| 0 <= i < j < s.len() ==> !after(#[trigger] s[i], #[trigger] s[j])
}

/// `after` is a strict weak order: asymmetric, and "not after" is transitive.
pub open spec fn weak_order<T>(after: spec_fn(T, T) -> bool) -> bool {
    &&& forall|a: T, b: T| #[trigger] after(a, b) ==> !after(b, a)
    &&& forall|a: T, b: T, c: T| #![trigger after(a, b), after(b, c)] !after(a, b) && !after(b, c) ==> !after(a, c)
}

proof fn lemma_insert_sorted<T>(s: Seq<T>, x: T, after: spec_fn(T, T) -> bool)
    requires
        sorted_by(s, after),
        weak_order(after),
    ensures
        sorted_by(stable_insert(s, x, after), after),
    decreases s.len(),
{
    if s.len() > 0 {
        let last = s.last();
        let d = s.drop_last();
        if after(last, x) {
            assert(sorted_by(d, after)) by {
                assert forall|i: int, j: int| 0 <= i < j < d.len() implies !after(#[trigger] d[i], #[trigger] d[j]) by {
                    assert(d[i] == s[i] && d[j] == s[j]);
                }
            }
            lemma_insert_sorted(d, x, after);
            lemma_insert_members(d, x, after);
            let r = stable_insert(d, x, after);
            assert(!after(x, last));
            assert forall|i: int| 0 <= i < r.len() implies !after(#[trigger] r[i], last) by {
                assert(r.contains(r[i]));
                if r[i] != x {
                    assert(d.contains(r[i]));
                    let k = choose|k: int| 0 <= k < d.len() && d[k] == r[i];
                    assert(s[k] == r[i] && s[s.len() - 1] == last);
                }
            }
            let out = r.push(last);
            assert forall|i: int, j: int| 0 <= i < j < out.len() implies !after(#[trigger] out[i], #[trigger] out[j]) by {
                if j == out.len() - 1 {
                    assert(out[i] == r[i]);
                } else {
                    assert(out[i] == r[i] && out[j] == r[j]);
                }
            }
        } else {
            let out = s.push(x);
            assert forall|i: int, j: int| 0 <= i < j < out.len() implies !after(#[trigger] out[i], #[trigger] out[j]) by {
                if j == out.len() - 1 {
                    if i < s.len() - 1 {
                        assert(!after(s[i], s[s.len() - 1]));
                    }
                    assert(out[i] == s[i]);
                } else {
                    assert(out[i] == s[i] && out[j] == s[j]);
                }
            }
        }
    }
}

/// A stable sort by a strict weak order leaves no element after a later one.
pub proof fn lemma_stable_sort_sorted<T>(s: Seq<T>, after: spec_fn(T, T) -> bool)
    requires
        weak_order(after),
    ensures
        sorted_by(stable_sort(s, after), after),
    decreases s.len(),
{
    if s.len() > 0 {
        lemma_stable_sort_sorted(s.drop_last(), after);
        lemma_insert_sorted(stable_sort(s.drop_last(), after), s.last(), after);
    }
}

/// Comparing texts the other way round gives the opposite answer.
pub proof fn lemma_order_text_flip(a: Seq<char>, b: Seq<char>)
    ensures
        order_text(a, b) == -order_text(b, a),
    decreases a.len(),
{
    if a.len() > 0 && b.len() > 0 && (a[0] as u32) == (b[0] as u32) {
        lemma_order_text_flip(a.skip(1), b.skip(1));
    }
}

/// Texts that compare equal compare alike with every other text.
pub proof fn lemma_order_text_same(x: Seq<char>, y: Seq<char>, z: Seq<char>)
    requires
        order_text(x, y) == 0,
    ensures
        order_text(x, z) == order_text(y, z),
    decreases x.len(),
{
    if x.len() == 0 {
        assert(y.len() == 0);
    } else {
        assert(y.len() > 0);
        if z.len() > 0 && (x[0] as u32) == (z[0] as u32) {
            lemma_order_text_same(x.skip(1), y.skip(1), z.skip(1));
        }
    }
}

/// Strictly earlier is transitive.
pub proof fn lemma_order_text_trans(a: Seq<char>, b: Seq<char>, c: Seq<char>)
    requires
        order_text(a, b) < 0,
        order_text(b, c) < 0,
    ensures
        order_text(a, c) < 0,
    decreases a.len(),
{
    if a.len() > 0 && b.len() > 0 && c.len() > 0 && (a[0] as u32) == (b[0] as u32) && (b[0] as u32) == (c[0] as u32) {
        lemma_order_text_trans(a.skip(1), b.skip(1), c.skip(1));
    }
}

/// Ordering by lowercase name (then by PID) is a strict weak order.
pub proof fn lemma_name_order(ps: Seq<ProcessView>)
    ensures
        weak_order(row_order_fn(ps, Sort::Name)),
{
    let f = row_order_fn(ps, Sort::Name);
    let n = lowered_names(ps);
    assert forall|a: RowView, b: RowView| #[trigger] f(a, b) implies !f(b, a) by {
        lemma_order_text_flip(n[a.process as int], n[b.process as int]);
    }
    assert forall|a: RowView, b: RowView, c: RowView| #![trigger f(a, b), f(b, c)] !f(a, b) && !f(b, c) implies !f(a, c) by {
        let x = n[a.process as int];
        let y = n[b.process as int];
        let z = n[c.process as int];
        lemma_order_text_flip(x, y);
        lemma_order_text_flip(y, z);
        lemma_order_text_flip(x, z);
        if order_text(x, y) == 0 {
            lemma_order_text_same(x, y, z);
        }
        if order_text(y, z) == 0 {
            lemma_order_text_flip(x, z);
            lemma_order_text_flip(y, x);
            lemma_order_text_same(z, y, x);
        }
        if order_text(x, y) < 0 && order_text(y, z) < 0 {
            lemma_order_text_trans(x, y, z);
        }
    }
}

} // verus!
