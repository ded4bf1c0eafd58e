//! Readers of the Linux `/proc` records the scanner consumes: process status lines, file
//! descriptor information, memory maps and the machine CPU counters.
use vstd::prelude::*;
use crate::model::{Access, Identity};
use crate::text::{
    all_digits, chars_equal, chars_of, char_whitespace, decimal, digits_value, is_whitespace, lossy,
    parse_number, parse_text, parse_text_number, parse_unsigned, pieces, split_on,
    split_whitespace, to_string, utf8_lossy, words,
};

verus! {

// ----- lock lines of fdinfo -----

/// The description of a held lock from the whitespace-separated fields of a `lock:` line of
/// `/proc/<pid>/fdinfo/<fd>`: only FLOCK, POSIX and OFDLCK locks that are held for READ or
/// WRITE, as "KIND MODE ACCESS bytes START–END".
pub open spec fn lock_description(f: Seq<Seq<char>>) -> Option<Seq<char>> {
    if f.len() == 9 && f[0] == "lock:"@ && (f[2] == "FLOCK"@ || f[2] == "POSIX"@ || f[2] == "OFDLCK"@)
        && (f[4] == "READ"@ || f[4] == "WRITE"@) {
        Some(f[2] + " "@ + f[3] + " "@ + f[4] + " bytes "@ + f[7] + "–"@ + f[8])
    } else {
        None
    }
}

/// The held-lock descriptions of the given lines, in order.
pub open spec fn lock_descriptions(lines: Seq<Seq<char>>) -> Seq<Seq<char>>
    decreases lines.len(),
{
    if lines.len() == 0 {
        Seq::empty()
    } else {
        lock_descriptions(lines.drop_last()) + match lock_description(words(lines.last())) {
            Some(d) => seq![d],
            None => Seq::empty(),
        }
    }
}

fn is_word(word: &Vec<char>, literal: &str) -> (r: bool)
    ensures
        r == (word@ == literal@),
{
    let l = chars_of(literal);
    chars_equal(word, &l)
}

fn append(out: &mut Vec<char>, s: &[char])
    ensures
        final(out)@ == old(out)@ + s@,
{
    let mut i: usize = 0;
    while i < s.len()
        invariant
            i <= s@.len(),
            out@ == old(out)@ + s@.take(i as int),
        decreases s@.len() - i,
    {
        out.push(s[i]);
        assert(s@.take(i as int + 1) =~= s@.take(i as int).push(s@[i as int]));
        i = i + 1;
    }
    assert(s@.take(s@.len() as int) =~= s@);
}

/// Held locks of one descriptor, described in words.
pub fn locks(descriptor_info: &str) -> (r: Vec<String>)
    ensures
        r@.map_values(|s: String| s@) == lock_descriptions(pieces(descriptor_info@, '\n')),
{
    let text = chars_of(descriptor_info);
    let lines = split_on(&text, '\n');
    let ghost ls = pieces(descriptor_info@, '\n');
    let mut out: Vec<String> = Vec::new();
    let mut i: usize = 0;
    while i < lines.len()
        invariant
            i <= lines@.len(),
            lines@.map_values(|w: Vec<char>| w@) == ls,
            out@.map_values(|s: String| s@) == lock_descriptions(ls.take(i as int)),
        decreases lines@.len() - i,
    {
        let fields = split_whitespace(&lines[i]);
        let ghost f = fields@.map_values(|w: Vec<char>| w@);
        assert(ls[i as int] == lines@[i as int]@);
        assert(ls.take(i as int + 1).drop_last() =~= ls.take(i as int));
        let ghost before = out@.map_values(|s: String| s@);
        if fields.len() == 9 && is_word(&fields[0], "lock:") && (is_word(&fields[2], "FLOCK") || is_word(
            &fields[2],
            "POSIX",
        ) || is_word(&fields[2], "OFDLCK")) && (is_word(&fields[4], "READ") || is_word(&fields[4], "WRITE")) {
            let mut d: Vec<char> = Vec::new();
            append(&mut d, &fields[2]);
            append(&mut d, &chars_of(" "));
            append(&mut d, &fields[3]);
            append(&mut d, &chars_of(" "));
            append(&mut d, &fields[4]);
            append(&mut d, &chars_of(" bytes "));
            append(&mut d, &fields[7]);
            append(&mut d, &chars_of("–"));
            append(&mut d, &fields[8]);
            assert(d@ == f[2] + " "@ + f[3] + " "@ + f[4] + " bytes "@ + f[7] + "–"@ + f[8]);
            out.push(to_string(&d));
            assert(out@.map_values(|s: String| s@) =~= before + seq![d@]);
        } else {
            assert(lock_description(f) is None);
            assert(out@.map_values(|s: String| s@) =~= before + Seq::<Seq<char>>::empty());
        }
        i = i + 1;
    }
    assert(ls.take(lines@.len() as int) =~= ls);
    out
}

// ----- /proc/<pid>/stat -----

/// An ASCII whitespace byte, as `u8::is_ascii_whitespace` classifies it.
pub open spec fn ascii_space(b: u8) -> bool {
    b == 32 || b == 9 || b == 10 || b == 12 || b == 13
}

/// Non-empty runs of bytes between ASCII whitespace, after the run `cur` under construction.
pub open spec fn byte_words_from(s: Seq<u8>, cur: Seq<u8>) -> Seq<Seq<u8>>
    decreases s.len(),
{
    if s.len() == 0 {
        if cur.len() > 0 { seq![cur] } else { Seq::empty() }
    } else if ascii_space(s[0]) {
        (if cur.len() > 0 { seq![cur] } else { Seq::<Seq<u8>>::empty() }) + byte_words_from(s.drop_first(), Seq::empty())
    } else {
        byte_words_from(s.drop_first(), cur.push(s[0]))
    }
}

/// Splits bytes at ASCII whitespace, dropping empty runs.
pub fn byte_words(s: &[u8]) -> (r: Vec<Vec<u8>>)
    ensures
        r@.map_values(|w: Vec<u8>| w@) == byte_words_from(s@, Seq::empty()),
{
    let mut out: Vec<Vec<u8>> = Vec::new();
    let mut cur: Vec<u8> = Vec::new();
    let mut i: usize = 0;
    assert(s@.skip(0) =~= s@);
    assert(out@.map_values(|w: Vec<u8>| w@) =~= Seq::<Seq<u8>>::empty());
    while i < s.len()
        invariant
            i <= s@.len(),
            out@.map_values(|w: Vec<u8>| w@) + byte_words_from(s@.skip(i as int), cur@) == byte_words_from(s@, Seq::empty()),
        decreases s@.len() - i,
    {
        let ghost before = out@.map_values(|w: Vec<u8>| w@);
        let ghost old_cur = cur@;
        assert(s@.skip(i as int).drop_first() =~= s@.skip(i as int + 1));
        let b = s[i];
        if b == 32 || b == 9 || b == 10 || b == 12 || b == 13 {
            if cur.len() > 0 {
                out.push(cur);
                assert(out@.map_values(|w: Vec<u8>| w@) =~= before + seq![old_cur]);
            } else {
                assert(out@.map_values(|w: Vec<u8>| w@) =~= before);
            }
            cur = Vec::new();
            proof {
                let after = out@.map_values(|w: Vec<u8>| w@);
                assert(cur@ =~= Seq::<u8>::empty());
                assert(after + byte_words_from(s@.skip(i as int + 1), cur@) =~= before + byte_words_from(
                    s@.skip(i as int),
                    old_cur,
                ));
            }
        } else {
            cur.push(b);
        }
        i = i + 1;
    }
    if cur.len() > 0 {
        let ghost before = out@.map_values(|w: Vec<u8>| w@);
        out.push(cur);
        assert(out@.map_values(|w: Vec<u8>| w@) =~= before.push(cur@));
    }
    assert(out@.map_values(|w: Vec<u8>| w@) =~= byte_words_from(s@, Seq::empty()));
    out
}

/// Position of the first byte `x` of `s`.
pub open spec fn first_index(s: Seq<u8>, x: u8) -> Option<int> {
    if exists|i: int| 0 <= i < s.len() && s[i] == x {
        Some(choose|i: int| 0 <= i < s.len() && s[i] == x && forall|k: int| 0 <= k < i ==> s[k] != x)
    } else {
        None
    }
}

/// Position of the last byte `x` of `s`.
pub open spec fn last_index(s: Seq<u8>, x: u8) -> Option<int> {
    if exists|i: int| 0 <= i < s.len() && s[i] == x {
        Some(choose|i: int| 0 <= i < s.len() && s[i] == x && forall|k: int| i < k < s.len() ==> s[k] != x)
    } else {
        None
    }
}

fn find_first(s: &[u8], x: u8) -> (r: Option<usize>)
    ensures
        match r {
            Some(i) => first_index(s@, x) == Some(i as int) && i < s@.len(),
            None => first_index(s@, x) is None,
        },
{
    let mut i: usize = 0;
    while i < s.len()
        invariant
            i <= s@.len(),
            forall|k: int| 0 <= k < i ==> s@[k] != x,
        decreases s@.len() - i,
    {
        if s[i] == x {
            proof {
                let c = choose|c: int| 0 <= c < s@.len() && s@[c] == x && forall|k: int| 0 <= k < c ==> s@[k] != x;
                assert(c == i);
            }
            return Some(i);
        }
        i = i + 1;
    }
    None
}

fn find_last(s: &[u8], x: u8) -> (r: Option<usize>)
    ensures
        match r {
            Some(i) => last_index(s@, x) == Some(i as int) && i < s@.len(),
            None => last_index(s@, x) is None,
        },
{
    let mut i: usize = s.len();
    while i > 0
        invariant
            i <= s@.len(),
            forall|k: int| i <= k < s@.len() ==> s@[k] != x,
        decreases i,
    {
        if s[i - 1] == x {
            proof {
                let c = choose|c: int| 0 <= c < s@.len() && s@[c] == x && forall|k: int| c < k < s@.len() ==> s@[k] != x;
                assert(c == i - 1);
            }
            return Some(i - 1);
        }
        i = i - 1;
    }
    None
}

/// Process status fields read from `/proc/<pid>/stat`.
#[derive(Debug)]
pub struct Stat {
    pub identity: Identity,
    pub name: String,
    pub parent: u32,
    /// User plus system CPU time in clock ticks.
    pub ticks: u64,
    /// Resident set size in bytes.
    pub rss: Option<u64>,
}

/// The abstract content of process status.
pub struct StatView {
    pub identity: Identity,
    pub name: Seq<char>,
    pub parent: u32,
    pub ticks: u64,
    pub rss: Option<u64>,
}

/// A decimal `u64` field.
pub open spec fn stat_number(f: Seq<u8>) -> Option<nat> {
    parse_unsigned(f, 10, u64::MAX as nat)
}

/// Start time, parent and CPU ticks from the fields after the name: start time is field 19,
/// parent field 1, user and system ticks fields 11 and 12; at least 22 fields.
pub open spec fn stat_core(f: Seq<Seq<u8>>) -> Option<(u64, u32, u64)> {
    if f.len() < 22 {
        None
    } else {
        match (stat_number(f[19]), stat_number(f[1]), stat_number(f[11]), stat_number(f[12])) {
            (Some(started), Some(parent), Some(user), Some(system)) => {
                if parent > u32::MAX || user + system > u64::MAX {
                    None
                } else {
                    Some((started as u64, parent as u32, (user + system) as u64))
                }
            },
            _ => None,
        }
    }
}

/// Resident bytes: resident pages (field 21) times the page size, when both are known and
/// the product fits.
pub open spec fn stat_rss(f: Seq<Seq<u8>>, page: i64) -> Option<u64> {
    match stat_number(f[21]) {
        Some(pages) => if page >= 0 && pages * page <= u64::MAX {
            Some((pages * page) as u64)
        } else {
            None
        },
        None => None,
    }
}

/// The status a `/proc/<pid>/stat` record holds, with `page` bytes per memory page: the name
/// between the first `(` and the last `)`, then the whitespace-separated fields after it.
/// `None` when the record is malformed.
pub open spec fn stat_view(pid: u32, bytes: Seq<u8>, page: i64) -> Option<StatView> {
    match (first_index(bytes, 40), last_index(bytes, 41)) {
        (Some(start), Some(end)) => {
            let f = byte_words_from(bytes.skip(end + 1), Seq::empty());
            if end <= start {
                None
            } else {
                match stat_core(f) {
                    Some((started, parent, ticks)) => Some(StatView {
                        identity: Identity { pid, started, started_sub: 0 },
                        name: utf8_lossy(bytes.subrange(start + 1, end)),
                        parent,
                        ticks,
                        rss: stat_rss(f, page),
                    }),
                    None => None,
                }
            }
        },
        _ => None,
    }
}

fn stat_core_of(fields: &Vec<Vec<u8>>) -> (r: Option<(u64, u32, u64)>)
    ensures
        r == stat_core(fields@.map_values(|w: Vec<u8>| w@)),
{
    let ghost f = fields@.map_values(|w: Vec<u8>| w@);
    if fields.len() < 22 {
        return None;
    }
    let max = u64::MAX;
    let started = parse_number(&fields[19], 10, max);
    let parent = parse_number(&fields[1], 10, max);
    let user = parse_number(&fields[11], 10, max);
    let system = parse_number(&fields[12], 10, max);
    match (started, parent, user, system) {
        (Some(started), Some(parent), Some(user), Some(system)) => {
            if parent > u32::MAX as u64 || user > u64::MAX - system {
                None
            } else {
                Some((started, parent as u32, user + system))
            }
        },
        _ => None,
    }
}

fn stat_rss_of(fields: &Vec<Vec<u8>>, page: i64) -> (r: Option<u64>)
    requires
        fields@.len() >= 22,
    ensures
        r == stat_rss(fields@.map_values(|w: Vec<u8>| w@), page),
{
    match parse_number(&fields[21], 10, u64::MAX) {
        Some(pages) => if page >= 0 && (page == 0 || pages <= u64::MAX / (page as u64)) {
            proof {
                if page > 0 {
                    assert(pages * (page as u64) <= u64::MAX) by (nonlinear_arith)
                        requires
                            page > 0,
                            pages <= u64::MAX / (page as u64),
                    ;
                }
            }
            Some(pages * (page as u64))
        } else {
            proof {
                if page > 0 {
                    assert(pages * (page as u64) > u64::MAX) by (nonlinear_arith)
                        requires
                            page > 0,
                            pages > u64::MAX / (page as u64),
                    ;
                }
            }
            None
        },
        None => None,
    }
}

/// Read a `/proc/<pid>/stat` record with `page` bytes per memory page.
pub fn parse_stat(pid: u32, bytes: &[u8], page: i64) -> (r: Option<Stat>)
    ensures
        match r {
            Some(s) => stat_view(pid, bytes@, page) == Some(
                StatView { identity: s.identity, name: s.name@, parent: s.parent, ticks: s.ticks, rss: s.rss },
            ),
            None => stat_view(pid, bytes@, page) is None,
        },
{
    let start = match find_first(bytes, 40) {
        Some(i) => i,
        None => {
            return None;
        },
    };
    let end = match find_last(bytes, 41) {
        Some(i) => i,
        None => {
            return None;
        },
    };
    if end <= start {
        return None;
    }
    let n = bytes.len();
    assert(end < n);
    let rest = sub_bytes(bytes, end + 1, n);
    assert(rest@ =~= bytes@.skip(end + 1));
    let fields = byte_words(&rest);
    let (started, parent, ticks) = match stat_core_of(&fields) {
        Some(core) => core,
        None => {
            return None;
        },
    };
    let rss = stat_rss_of(&fields, page);
    let name_bytes = sub_bytes(bytes, start + 1, end);
    let name = to_string(&lossy(&name_bytes));
    Some(Stat { identity: Identity { pid, started, started_sub: 0 }, name, parent, ticks, rss })
}

/// The bytes `s[from..to]`.
pub fn sub_bytes(s: &[u8], from: usize, to: usize) -> (r: Vec<u8>)
    requires
        from <= to <= s@.len(),
    ensures
        r@ == s@.subrange(from as int, to as int),
{
    let mut out: Vec<u8> = Vec::new();
    let mut k = from;
    while k < to
        invariant
            from <= k <= to,
            to <= s@.len(),
            out@ == s@.subrange(from as int, k as int),
        decreases to - k,
    {
        out.push(s[k]);
        assert(s@.subrange(from as int, k + 1) =~= s@.subrange(from as int, k as int).push(s@[k as int]));
        k = k + 1;
    }
    out
}

// ----- /proc/stat -----

/// The sum of the decimal counters, if all of them are numbers.
pub open spec fn counter_sum(f: Seq<Seq<char>>) -> Option<nat>
    decreases f.len(),
{
    if f.len() == 0 {
        Some(0)
    } else {
        match (counter_sum(f.drop_last()), parse_text(f.last(), 10, u64::MAX as nat)) {
            (Some(a), Some(b)) => Some(a + b),
            _ => None,
        }
    }
}

/// Total machine CPU time from `/proc/stat`: the sum of the first eight counters of the
/// leading `cpu` line, or zero when the line is missing, malformed or the sum overflows.
pub open spec fn cpu_total_view(text: Seq<char>) -> u64 {
    let w = words(pieces(text, '\n')[0]);
    if w.len() == 0 || w[0] != "cpu"@ {
        0
    } else {
        let counters = w.subrange(1, if w.len() < 9 { w.len() as int } else { 9 });
        match counter_sum(counters) {
            Some(t) => if t <= u64::MAX { t as u64 } else { 0 },
            None => 0,
        }
    }
}

/// Total machine CPU time read from the text of `/proc/stat`.
pub fn cpu_total(text: &str) -> (r: u64)
    ensures
        r == cpu_total_view(text@),
{
    let chars = chars_of(text);
    let lines = split_on(&chars, '\n');
    assert(lines@[0]@ == pieces(text@, '\n')[0]);
    let fields = split_whitespace(&lines[0]);
    let ghost w = fields@.map_values(|v: Vec<char>| v@);
    if fields.len() == 0 || !is_word(&fields[0], "cpu") {
        return 0;
    }
    let end: usize = if fields.len() < 9 { fields.len() } else { 9 };
    let ghost counters = w.subrange(1, end as int);
    let mut sum: u64 = 0;
    let mut i: usize = 1;
    while i < end
        invariant
            1 <= i <= end,
            end <= fields@.len(),
            w == fields@.map_values(|v: Vec<char>| v@),
            w == words(pieces(text@, '\n')[0]),
            w.len() > 0 && w[0] == "cpu"@,
            end == (if w.len() < 9 { w.len() as int } else { 9 }),
            counters == w.subrange(1, end as int),
            counter_sum(w.subrange(1, i as int)) == Some(sum as nat),
        decreases end - i,
    {
        let value = parse_text_number(&fields[i], 10, u64::MAX);
        proof {
            assert(w.subrange(1, i + 1).drop_last() =~= w.subrange(1, i as int));
            assert(w.subrange(1, i + 1).last() == fields@[i as int]@);
        }
        match value {
            Some(v) => {
                if sum > u64::MAX - v {
                    proof {
                        assert(counters.take(i as int) =~= w.subrange(1, i + 1));
                        lemma_counter_sum_grows(counters, i - 1);
                    }
                    return 0;
                }
                sum = sum + v;
            },
            None => {
                proof {
                    assert(counters.take(i as int) =~= w.subrange(1, i + 1));
                    lemma_counter_sum_fails(counters, i - 1);
                }
                return 0;
            },
        }
        i = i + 1;
    }
    assert(w.subrange(1, end as int) =~= counters);
    sum
}

/// A counter sum is at least the sum of any prefix.
proof fn lemma_counter_sum_grows(f: Seq<Seq<char>>, i: int)
    requires
        0 <= i < f.len(),
        counter_sum(f.take(i + 1)) is Some,
    ensures
        counter_sum(f) is None || counter_sum(f)->Some_0 >= counter_sum(f.take(i + 1))->Some_0,
    decreases f.len(),
{
    if f.len() > i + 1 {
        assert(f.drop_last().take(i + 1) =~= f.take(i + 1));
        lemma_counter_sum_grows(f.drop_last(), i);
    } else {
        assert(f.take(i + 1) =~= f);
    }
}

/// A counter that is not a number spoils every sum that includes it.
proof fn lemma_counter_sum_fails(f: Seq<Seq<char>>, i: int)
    requires
        0 <= i < f.len(),
        counter_sum(f.take(i + 1)) is None,
    ensures
        counter_sum(f) is None,
    decreases f.len(),
{
    if f.len() > i + 1 {
        assert(f.drop_last().take(i + 1) =~= f.take(i + 1));
        lemma_counter_sum_fails(f.drop_last(), i);
    } else {
        assert(f.take(i + 1) =~= f);
    }
}

// ----- fdinfo flags -----

/// `s` without leading whitespace.
pub open spec fn trim_start(s: Seq<char>) -> Seq<char>
    decreases s.len(),
{
    if s.len() > 0 && char_whitespace(s[0]) { trim_start(s.drop_first()) } else { s }
}

/// `s` without trailing whitespace.
pub open spec fn trim_end(s: Seq<char>) -> Seq<char>
    decreases s.len(),
{
    if s.len() > 0 && char_whitespace(s.last()) { trim_end(s.drop_last()) } else { s }
}

/// `s` without surrounding whitespace, as `str::trim` leaves it.
pub open spec fn trim(s: Seq<char>) -> Seq<char> {
    trim_end(trim_start(s))
}

/// What follows `prefix` on the first line that starts with it.
pub open spec fn after_prefix(lines: Seq<Seq<char>>, prefix: Seq<char>) -> Option<Seq<char>>
    decreases lines.len(),
{
    if lines.len() == 0 {
        None
    } else if crate::text::starts_with(lines[0], prefix) {
        Some(lines[0].skip(prefix.len() as int))
    } else {
        after_prefix(lines.drop_first(), prefix)
    }
}

/// Access mode of open flags: a path-only descriptor is a reference; otherwise the access
/// mode bits give read, write or both.
pub open spec fn flags_access(flags: u32, o_path: u32) -> Access {
    if flags & o_path != 0 {
        Access::Reference
    } else if flags & 3 == 0 {
        Access::Read
    } else if flags & 3 == 1 {
        Access::Write
    } else if flags & 3 == 2 {
        Access::ReadWrite
    } else {
        Access::Unknown
    }
}

/// Access mode from the octal `flags:` line of a descriptor's fdinfo; unknown without one.
pub open spec fn fd_access_view(info: Seq<char>, o_path: u32) -> Access {
    match after_prefix(pieces(info, '\n'), "flags:"@) {
        Some(rest) => match parse_text(trim(rest), 8, u32::MAX as nat) {
            Some(flags) => flags_access(flags as u32, o_path),
            None => Access::Unknown,
        },
        None => Access::Unknown,
    }
}

fn trimmed(s: &[char]) -> (r: Vec<char>)
    ensures
        r@ == trim(s@),
{
    let mut from: usize = 0;
    assert(s@.skip(0) =~= s@);
    while from < s.len() && is_whitespace(s[from])
        invariant
            from <= s@.len(),
            trim_start(s@) == trim_start(s@.skip(from as int)),
        decreases s@.len() - from,
    {
        assert(s@.skip(from as int).drop_first() =~= s@.skip(from + 1));
        from = from + 1;
    }
    assert(trim_start(s@) == s@.skip(from as int));
    let mut to: usize = s.len();
    while to > from && is_whitespace(s[to - 1])
        invariant
            from <= to <= s@.len(),
            trim(s@) == trim_end(s@.subrange(from as int, to as int)),
        decreases to,
    {
        assert(s@.subrange(from as int, to as int).drop_last() =~= s@.subrange(from as int, to - 1));
        to = to - 1;
    }
    let mut out: Vec<char> = Vec::new();
    let mut k = from;
    while k < to
        invariant
            from <= k <= to,
            to <= s@.len(),
            out@ == s@.subrange(from as int, k as int),
        decreases to - k,
    {
        out.push(s[k]);
        assert(s@.subrange(from as int, k + 1) =~= s@.subrange(from as int, k as int).push(s@[k as int]));
        k = k + 1;
    }
    out
}

/// Access mode of a descriptor from its fdinfo text; `o_path` is the platform's `O_PATH` flag.
pub fn fd_access(info: &str, o_path: u32) -> (r: Access)
    ensures
        r == fd_access_view(info@, o_path),
{
    let chars = chars_of(info);
    let lines = split_on(&chars, '\n');
    let ghost ls = lines@.map_values(|v: Vec<char>| v@);
    let prefix = chars_of("flags:");
    let mut i: usize = 0;
    assert(ls.skip(0) =~= ls);
    while i < lines.len()
        invariant
            i <= lines@.len(),
            ls == lines@.map_values(|v: Vec<char>| v@),
            ls == pieces(info@, '\n'),
            prefix@ == "flags:"@,
            after_prefix(ls, prefix@) == after_prefix(ls.skip(i as int), prefix@),
        decreases lines@.len() - i,
    {
        assert(ls.skip(i as int).drop_first() =~= ls.skip(i + 1));
        assert(ls.skip(i as int)[0] == lines@[i as int]@);
        if crate::text::chars_occur_at(&lines[i], &prefix, 0) {
            let line = &lines[i];
            let mut rest: Vec<char> = Vec::new();
            let mut k = prefix.len();
            while k < line.len()
                invariant
                    prefix@.len() <= k <= line@.len(),
                    rest@ == line@.subrange(prefix@.len() as int, k as int),
                decreases line@.len() - k,
            {
                rest.push(line[k]);
                assert(line@.subrange(prefix@.len() as int, k + 1) =~= line@.subrange(prefix@.len() as int, k as int).push(line@[k as int]));
                k = k + 1;
            }
            assert(rest@ =~= line@.skip(prefix@.len() as int));
            let t = trimmed(&rest);
            return match parse_text_number(&t, 8, u32::MAX as u64) {
                Some(flags) => {
                    let f = flags as u32;
                    if f & o_path != 0 {
                        Access::Reference
                    } else if f & 3 == 0 {
                        Access::Read
                    } else if f & 3 == 1 {
                        Access::Write
                    } else if f & 3 == 2 {
                        Access::ReadWrite
                    } else {
                        Access::Unknown
                    }
                },
                None => Access::Unknown,
            };
        }
        i = i + 1;
    }
    Access::Unknown
}

// ----- deleted paths and permissions -----

/// The path a ` (deleted)` link names, without that suffix.
pub open spec fn deleted_candidate_view(path: Seq<u8>) -> Option<Seq<u8>> {
    if crate::text::ends_with(path, " (deleted)"@.map_values(|c: char| c as u8)) {
        Some(path.take(path.len() - 10))
    } else {
        None
    }
}

/// The path without a trailing ` (deleted)` marker, if it carries one. The scanner treats
/// the file as deleted when nothing exists any more under the marked name.
pub fn deleted_candidate(path: &[u8]) -> (r: Option<Vec<u8>>)
    ensures
        match r {
            Some(p) => deleted_candidate_view(path@) == Some(p@),
            None => deleted_candidate_view(path@) is None,
        },
{
    let marker: [u8; 10] = [32, 40, 100, 101, 108, 101, 116, 101, 100, 41];
    proof {
        reveal_strlit(" (deleted)");
        assert(marker@ =~= " (deleted)"@.map_values(|c: char| c as u8));
    }
    if path.len() < 10 {
        return None;
    }
    let at = path.len() - 10;
    if crate::text::bytes_occur_at(path, &marker, at) {
        Some(sub_bytes(path, 0, at))
    } else {
        None
    }
}

/// Record that an inspection was refused for lack of permission.
pub fn permission(denied: bool, restricted: &mut bool)
    ensures
        *final(restricted) == (*old(restricted) || denied),
{
    if denied {
        *restricted = true;
    }
}

// ----- /proc/<pid>/maps -----

/// The first position from `at` on that is not a space.
pub open spec fn skip_spaces(l: Seq<u8>, at: int) -> int
    decreases l.len() - at,
{
    if 0 <= at < l.len() && l[at] == 32 { skip_spaces(l, at + 1) } else { at }
}

/// The first position from `at` on that is a space (or the end).
pub open spec fn token_end(l: Seq<u8>, at: int) -> int
    decreases l.len() - at,
{
    if 0 <= at < l.len() && l[at] != 32 { token_end(l, at + 1) } else { at }
}

/// The next `k` space-separated fields from `at` on, and the position after them.
pub open spec fn map_fields(l: Seq<u8>, at: int, k: nat) -> (Seq<Seq<u8>>, int)
    decreases k,
{
    if k == 0 {
        (Seq::empty(), at)
    } else {
        let s = skip_spaces(l, at);
        let e = token_end(l, s);
        let rest = map_fields(l, e, (k - 1) as nat);
        (seq![l.subrange(s, e)] + rest.0, rest.1)
    }
}

/// The kernel's `\012` escapes of newlines, decoded.
pub open spec fn decode_newlines(p: Seq<u8>) -> Seq<u8>
    decreases p.len(),
{
    if p.len() == 0 {
        Seq::empty()
    } else if p.len() >= 4 && p[0] == 92 && p[1] == 48 && p[2] == 49 && p[3] == 50 {
        seq![10u8] + decode_newlines(p.skip(4))
    } else {
        seq![p[0]] + decode_newlines(p.skip(1))
    }
}

/// Access mode of a mapping's permissions (`r-xp`, `rw-s`, ...).
pub open spec fn perm_access(perm: Seq<u8>) -> Access {
    if perm.contains(120u8) {
        Access::Execute
    } else if perm.len() >= 2 && perm[0] == 114 && perm[1] == 119 {
        Access::ReadWrite
    } else if perm.len() >= 1 && perm[0] == 114 {
        Access::Read
    } else if perm.len() > 1 && perm[1] == 119 {
        Access::Write
    } else {
        Access::Mapped
    }
}

/// Device number of a major and a minor number, as glibc and the libc crate encode it.
pub open spec fn dev_number(major: u32, minor: u32) -> u64 {
    (((major as u64) & 0xfff) << 8u64) | (((major as u64) & 0xfffff000u64) << 32u64) | ((minor as u64) & 0xffu64)
        | (((minor as u64) & 0xffffff00u64) << 12u64)
}

/// The device number of a major and a minor number.
fn makedev(major: u32, minor: u32) -> (r: u64)
    ensures
        r == dev_number(major, minor),
{
    let ma = major as u64;
    let mi = minor as u64;
    ((ma & 0xfff) << 8u64) | ((ma & 0xfffff000u64) << 32u64) | (mi & 0xffu64) | ((mi & 0xffffff00u64) << 12u64)
}

/// The file mapping one line of `/proc/<pid>/maps` records: address range, permissions,
/// offset, device `major:minor` in hex and inode, then the absolute path of the file
/// (spaces included, newlines escaped); `None` for anonymous or malformed lines.
pub open spec fn mapping_view(line: Seq<u8>) -> Option<(Seq<u8>, Access, u64, u64)> {
    let (f, at) = map_fields(line, 0, 5);
    let rest = line.skip(skip_spaces(line, at));
    let path = if rest.len() > 0 && rest.last() == 10 { rest.drop_last() } else { rest };
    if !(path.len() > 0 && path[0] == 47) {
        None
    } else {
        match first_index(f[3], 58) {
            Some(c) => match (
                parse_unsigned(f[3].take(c), 16, u32::MAX as nat),
                parse_unsigned(f[3].skip(c + 1), 16, u32::MAX as nat),
                parse_unsigned(f[4], 10, u64::MAX as nat),
            ) {
                (Some(major), Some(minor), Some(ino)) => Some(
                    (decode_newlines(path), perm_access(f[1]), dev_number(major as u32, minor as u32), ino as u64),
                ),
                _ => None,
            },
            None => None,
        }
    }
}

fn skip_spaces_from(l: &[u8], at: usize) -> (r: usize)
    requires
        at <= l@.len(),
    ensures
        r == skip_spaces(l@, at as int),
        at <= r <= l@.len(),
{
    let mut i = at;
    while i < l.len() && l[i] == 32
        invariant
            at <= i <= l@.len(),
            skip_spaces(l@, at as int) == skip_spaces(l@, i as int),
        decreases l@.len() - i,
    {
        i = i + 1;
    }
    i
}

fn token_end_from(l: &[u8], at: usize) -> (r: usize)
    requires
        at <= l@.len(),
    ensures
        r == token_end(l@, at as int),
        at <= r <= l@.len(),
{
    let mut i = at;
    while i < l.len() && l[i] != 32
        invariant
            at <= i <= l@.len(),
            token_end(l@, at as int) == token_end(l@, i as int),
        decreases l@.len() - i,
    {
        i = i + 1;
    }
    i
}

fn decode(p: &[u8]) -> (r: Vec<u8>)
    ensures
        r@ == decode_newlines(p@),
{
    let mut out: Vec<u8> = Vec::new();
    let mut i: usize = 0;
    assert(p@.skip(0) =~= p@);
    while i < p.len()
        invariant
            i <= p@.len(),
            out@ + decode_newlines(p@.skip(i as int)) == decode_newlines(p@),
        decreases p@.len() - i,
    {
        let ghost before = out@;
        let ghost rest = p@.skip(i as int);
        if p.len() - i >= 4 && p[i] == 92 && p[i + 1] == 48 && p[i + 2] == 49 && p[i + 3] == 50 {
            out.push(10);
            assert(rest.skip(4) =~= p@.skip(i + 4));
            assert(out@ + decode_newlines(p@.skip(i + 4)) =~= before + decode_newlines(rest));
            i = i + 4;
        } else {
            out.push(p[i]);
            assert(rest.skip(1) =~= p@.skip(i + 1));
            assert(out@ + decode_newlines(p@.skip(i + 1)) =~= before + decode_newlines(rest));
            i = i + 1;
        }
    }
    assert(out@ + decode_newlines(p@.skip(i as int)) =~= out@);
    out
}

fn access_of_perm(perm: &[u8]) -> (r: Access)
    ensures
        r == perm_access(perm@),
{
    let mut i: usize = 0;
    while i < perm.len()
        invariant
            i <= perm@.len(),
            forall|k: int| 0 <= k < i ==> perm@[k] != 120u8,
        decreases perm@.len() - i,
    {
        if perm[i] == 120 {
            assert(perm@.contains(120u8));
            return Access::Execute;
        }
        i = i + 1;
    }
    if perm.len() >= 2 && perm[0] == 114 && perm[1] == 119 {
        Access::ReadWrite
    } else if perm.len() >= 1 && perm[0] == 114 {
        Access::Read
    } else if perm.len() > 1 && perm[1] == 119 {
        Access::Write
    } else {
        Access::Mapped
    }
}

/// The path, access mode, device and inode of a mapped file on one `maps` line.
pub fn mapping(line: &[u8]) -> (r: Option<(Vec<u8>, Access, u64, u64)>)
    ensures
        match r {
            Some((path, access, dev, ino)) => mapping_view(line@) == Some((path@, access, dev, ino)),
            None => mapping_view(line@) is None,
        },
{
    let ghost whole = map_fields(line@, 0, 5);
    let mut fields: Vec<Vec<u8>> = Vec::new();
    let mut at: usize = 0;
    let mut k: usize = 0;
    assert(fields@.map_values(|w: Vec<u8>| w@) + map_fields(line@, 0, 5).0 =~= whole.0);
    while k < 5
        invariant
            k <= 5,
            at <= line@.len(),
            fields@.len() == k,
            fields@.map_values(|w: Vec<u8>| w@) + map_fields(line@, at as int, (5 - k) as nat).0 == whole.0,
            map_fields(line@, at as int, (5 - k) as nat).1 == whole.1,
        decreases 5 - k,
    {
        let start = skip_spaces_from(line, at);
        let end = token_end_from(line, start);
        let ghost before = fields@.map_values(|w: Vec<u8>| w@);
        let ghost step = map_fields(line@, at as int, (5 - k) as nat);
        assert(step.0 == seq![line@.subrange(start as int, end as int)] + map_fields(line@, end as int, (5 - k - 1) as nat).0);
        fields.push(sub_bytes(line, start, end));
        assert(fields@.map_values(|w: Vec<u8>| w@) =~= before.push(line@.subrange(start as int, end as int)));
        assert(fields@.map_values(|w: Vec<u8>| w@) + map_fields(line@, end as int, (5 - k - 1) as nat).0 =~= whole.0);
        at = end;
        k = k + 1;
    }
    let ghost f = fields@.map_values(|w: Vec<u8>| w@);
    assert(f =~= whole.0);
    assert(at == whole.1);
    let p0 = skip_spaces_from(line, at);
    let n = line.len();
    let stop = if n > p0 && line[n - 1] == 10 { n - 1 } else { n };
    let path = sub_bytes(line, p0, stop);
    proof {
        let rest = line@.skip(p0 as int);
        let expected = if rest.len() > 0 && rest.last() == 10 { rest.drop_last() } else { rest };
        assert(path@ =~= expected);
    }
    if !(path.len() > 0 && path[0] == 47) {
        return None;
    }
    let colon = match find_first(&fields[3], 58) {
        Some(c) => c,
        None => {
            return None;
        },
    };
    let dev_field = &fields[3];
    let dev_len = dev_field.len();
    assert(colon < dev_len);
    let major_text = sub_bytes(dev_field, 0, colon);
    let minor_text = sub_bytes(dev_field, colon + 1, dev_field.len());
    assert(major_text@ =~= f[3].take(colon as int));
    assert(minor_text@ =~= f[3].skip(colon + 1));
    let major = parse_number(&major_text, 16, u32::MAX as u64);
    let minor = parse_number(&minor_text, 16, u32::MAX as u64);
    let ino = parse_number(&fields[4], 10, u64::MAX);
    match (major, minor, ino) {
        (Some(major), Some(minor), Some(ino)) => {
            let decoded = decode(&path);
            let access = access_of_perm(&fields[1]);
            let dev = makedev(major as u32, minor as u32);
            Some((decoded, access, dev, ino))
        },
        _ => None,
    }
}

// ----- assembling a process's usages -----

/// The usages one open descriptor records: the open file, then one locked usage for each
/// lock held through it.
pub open spec fn descriptor_usage_views(path: Seq<u8>, access: Access, deleted: bool, locks: Seq<Seq<char>>) -> Seq<crate::model::UsageView> {
    seq![crate::model::UsageView { path, relation: crate::model::Relation::Open, access, deleted, lock: None }] + locks.map_values(
        |l: Seq<char>|
            crate::model::UsageView {
                path,
                relation: crate::model::Relation::Locked,
                access,
                deleted,
                lock: Some(crate::model::LockView::Kernel(l)),
            },
    )
}

/// The usages one open descriptor records.
pub fn descriptor_usages(path: &Vec<u8>, access: Access, deleted: bool, locks: &Vec<String>) -> (r: Vec<crate::model::Usage>)
    ensures
        r@.map_values(|u: crate::model::Usage| u@) == descriptor_usage_views(path@, access, deleted, locks@.map_values(|l: String| l@)),
{
    let ghost want = descriptor_usage_views(path@, access, deleted, locks@.map_values(|l: String| l@));
    let mut out: Vec<crate::model::Usage> = Vec::new();
    out.push(crate::model::Usage {
        path: crate::model::copy_bytes(path),
        relation: crate::model::Relation::Open,
        access,
        deleted,
        lock: None,
    });
    let mut i: usize = 0;
    while i < locks.len()
        invariant
            i <= locks@.len(),
            want == descriptor_usage_views(path@, access, deleted, locks@.map_values(|l: String| l@)),
            out@.map_values(|u: crate::model::Usage| u@) == want.take(i as int + 1),
        decreases locks@.len() - i,
    {
        let ghost before = out@.map_values(|u: crate::model::Usage| u@);
        out.push(crate::model::Usage {
            path: crate::model::copy_bytes(path),
            relation: crate::model::Relation::Locked,
            access,
            deleted,
            lock: Some(crate::model::LockEvidence::Kernel(locks[i].clone())),
        });
        assert(out@.map_values(|u: crate::model::Usage| u@) =~= before.push(want[i + 1]));
        assert(want.take(i as int + 2) =~= want.take(i as int + 1).push(want[i + 1]));
        i = i + 1;
    }
    assert(want.take(locks@.len() as int + 1) =~= want);
    out
}

/// The warnings of a scan about processes it could not fully see.
pub open spec fn scan_warning_views(denied: u64, foreign: u64) -> Seq<Seq<char>> {
    (if denied > 0 {
        seq!["Limited visibility for "@ + decimal(denied as nat) + " processes (permissions). Elevated access may reveal more."@]
    } else {
        Seq::empty()
    }) + (if foreign > 0 {
        seq!["Skipped "@ + decimal(foreign as nat) + " processes in other mount namespaces; run oflh inside their container."@]
    } else {
        Seq::empty()
    })
}

/// Text, a number in decimal, then more text.
fn framed_number(head: &str, n: u64, tail: &str) -> (r: String)
    ensures
        r@ == head@ + decimal(n as nat) + tail@,
{
    let mut out = chars_of(head);
    let number = crate::text::decimal_of(n);
    let rest = chars_of(tail);
    let ghost a = out@;
    let mut i: usize = 0;
    while i < number.len()
        invariant
            i <= number@.len(),
            out@ == a + number@.take(i as int),
        decreases number@.len() - i,
    {
        out.push(number[i]);
        assert(number@.take(i as int + 1) =~= number@.take(i as int).push(number@[i as int]));
        i = i + 1;
    }
    assert(number@.take(number@.len() as int) =~= number@);
    let ghost b = out@;
    let mut k: usize = 0;
    while k < rest.len()
        invariant
            k <= rest@.len(),
            out@ == b + rest@.take(k as int),
        decreases rest@.len() - k,
    {
        out.push(rest[k]);
        assert(rest@.take(k as int + 1) =~= rest@.take(k as int).push(rest@[k as int]));
        k = k + 1;
    }
    assert(rest@.take(rest@.len() as int) =~= rest@);
    to_string(&out)
}

/// The warnings of a scan about processes it could not fully see: those whose details were
/// refused, and those in other mount namespaces.
pub fn scan_warnings(denied: u64, foreign: u64) -> (r: Vec<String>)
    ensures
        r@.map_values(|w: String| w@) == scan_warning_views(denied, foreign),
{
    let mut out: Vec<String> = Vec::new();
    if denied > 0 {
        out.push(framed_number("Limited visibility for ", denied, " processes (permissions). Elevated access may reveal more."));
    }
    let ghost first = out@.map_values(|w: String| w@);
    if foreign > 0 {
        out.push(framed_number("Skipped ", foreign, " processes in other mount namespaces; run oflh inside their container."));
        assert(out@.map_values(|w: String| w@) =~= first.push(out@[out@.len() - 1]@));
    }
    assert(out@.map_values(|w: String| w@) =~= scan_warning_views(denied, foreign));
    out
}

/// The effective user ID a process status text reports: the second number after `Uid:`.
pub open spec fn status_uid_view(status: Seq<char>) -> Option<u32> {
    match after_prefix(pieces(status, '\n'), "Uid:"@) {
        Some(rest) => {
            let ws = words(rest);
            if ws.len() > 1 {
                match parse_text(ws[1], 10, u32::MAX as nat) {
                    Some(v) => Some(v as u32),
                    None => None,
                }
            } else {
                None
            }
        },
        None => None,
    }
}

/// The effective user ID a process status text reports.
pub fn status_uid(status: &str) -> (r: Option<u32>)
    ensures
        r == status_uid_view(status@),
{
    let chars = chars_of(status);
    let lines = split_on(&chars, '\n');
    let ghost ls = lines@.map_values(|v: Vec<char>| v@);
    let prefix = chars_of("Uid:");
    let mut i: usize = 0;
    assert(ls.skip(0) =~= ls);
    while i < lines.len()
        invariant
            i <= lines@.len(),
            ls == lines@.map_values(|v: Vec<char>| v@),
            ls == pieces(status@, '\n'),
            prefix@ == "Uid:"@,
            after_prefix(ls, prefix@) == after_prefix(ls.skip(i as int), prefix@),
        decreases lines@.len() - i,
    {
        assert(ls.skip(i as int).drop_first() =~= ls.skip(i + 1));
        assert(ls.skip(i as int)[0] == lines@[i as int]@);
        if crate::text::chars_occur_at(&lines[i], &prefix, 0) {
            let line = &lines[i];
            let mut rest: Vec<char> = Vec::new();
            let mut k = prefix.len();
            while k < line.len()
                invariant
                    prefix@.len() <= k <= line@.len(),
                    rest@ == line@.subrange(prefix@.len() as int, k as int),
                decreases line@.len() - k,
            {
                rest.push(line[k]);
                assert(line@.subrange(prefix@.len() as int, k + 1) =~= line@.subrange(prefix@.len() as int, k as int).push(line@[k as int]));
                k = k + 1;
            }
            assert(rest@ =~= line@.skip(prefix@.len() as int));
            let ws = crate::text::split_whitespace(&rest);
            if ws.len() <= 1 {
                return None;
            }
            assert(ws@.map_values(|w: Vec<char>| w@)[1] == ws@[1]@);
            return match parse_text_number(&ws[1], 10, u32::MAX as u64) {
                Some(v) => Some(v as u32),
                None => None,
            };
        }
        i = i + 1;
    }
    None
}

// ----- what a scan keeps of a process -----

/// The usage a link of `/proc/<pid>` (the working directory or the executable) records,
/// when the path it names, with file identity `meta` for a file target, is the target.
pub open spec fn link_usage_view(
    t_path: Seq<u8>,
    directory: bool,
    identity: Option<(u64, u64)>,
    path: Seq<u8>,
    deleted: bool,
    meta: Option<(u64, u64)>,
    relation: crate::model::Relation,
    access: Access,
) -> Option<crate::model::UsageView> {
    if crate::path::target_matches(t_path, directory, identity, path, meta) {
        Some(crate::model::UsageView { path, relation, access, deleted, lock: None })
    } else {
        None
    }
}

/// The usage that a working-directory or executable link records for the target, if any.
pub fn link_usage(
    target: &crate::path::Target,
    path: Vec<u8>,
    deleted: bool,
    meta: Option<(u64, u64)>,
    relation: crate::model::Relation,
    access: Access,
) -> (r: Option<crate::model::Usage>)
    ensures
        match r {
            Some(u) => link_usage_view(target.path@, target.directory, target.identity, path@, deleted, meta, relation, access) == Some(u@),
            None => link_usage_view(target.path@, target.directory, target.identity, path@, deleted, meta, relation, access) is None,
        },
{
    if target.matches(&path, meta) {
        Some(crate::model::Usage { path, relation, access, deleted, lock: None })
    } else {
        None
    }
}

/// The usages an open descriptor records for the target: none unless its link names an
/// absolute path that is the target; else the open file and one locked usage per held lock,
/// with the access and locks its fdinfo text reports.
pub open spec fn descriptor_entry_view(
    t_path: Seq<u8>,
    directory: bool,
    identity: Option<(u64, u64)>,
    path: Seq<u8>,
    deleted: bool,
    meta: Option<(u64, u64)>,
    info: Seq<char>,
    o_path: u32,
) -> Seq<crate::model::UsageView> {
    if path.len() > 0 && path[0] == 47 && crate::path::target_matches(t_path, directory, identity, path, meta) {
        descriptor_usage_views(path, fd_access_view(info, o_path), deleted, lock_descriptions(pieces(info, '\n')))
    } else {
        Seq::empty()
    }
}

/// The usages an open descriptor records for the target.
pub fn descriptor_entry(
    target: &crate::path::Target,
    path: &Vec<u8>,
    deleted: bool,
    meta: Option<(u64, u64)>,
    info: &str,
    o_path: u32,
) -> (r: Vec<crate::model::Usage>)
    ensures
        r@.map_values(|u: crate::model::Usage| u@) == descriptor_entry_view(
            target.path@,
            target.directory,
            target.identity,
            path@,
            deleted,
            meta,
            info@,
            o_path,
        ),
{
    if path.len() == 0 || path[0] != 47 || !target.matches(path, meta) {
        let r: Vec<crate::model::Usage> = Vec::new();
        assert(r@.map_values(|u: crate::model::Usage| u@) =~= Seq::empty());
        return r;
    }
    let access = fd_access(info, o_path);
    let held = locks(info);
    descriptor_usages(path, access, deleted, &held)
}

/// The usage a line of `/proc/<pid>/maps` records for the target: the mapped file, when the
/// line names one that `Target::keeps_mapping` accepts.
pub open spec fn map_usage_view(
    t_path: Seq<u8>,
    directory: bool,
    identity: Option<(u64, u64)>,
    path: Seq<u8>,
    deleted: bool,
    access: Access,
    dev: u64,
    ino: u64,
) -> Option<crate::model::UsageView> {
    if crate::path::keeps_mapping_view(t_path, directory, identity, path, dev, ino) {
        Some(crate::model::UsageView { path, relation: crate::model::Relation::Mapped, access, deleted, lock: None })
    } else {
        None
    }
}

/// The usage a mapped file records for the target, if any.
pub fn map_usage(
    target: &crate::path::Target,
    path: Vec<u8>,
    deleted: bool,
    access: Access,
    dev: u64,
    ino: u64,
) -> (r: Option<crate::model::Usage>)
    ensures
        match r {
            Some(u) => map_usage_view(target.path@, target.directory, target.identity, path@, deleted, access, dev, ino) == Some(u@),
            None => map_usage_view(target.path@, target.directory, target.identity, path@, deleted, access, dev, ino) is None,
        },
{
    if target.keeps_mapping(&path, dev, ino) {
        Some(crate::model::Usage { path, relation: crate::model::Relation::Mapped, access, deleted, lock: None })
    } else {
        None
    }
}

/// A scanned process is reported when it uses the target and its identity, read again after
/// the inspection, is still the one it started with.
pub open spec fn keeps_process_view(usages: nat, before: Identity, after: Option<Identity>) -> bool {
    usages > 0 && after == Some(before)
}

/// Whether a scanned process is reported.
pub fn keeps_process(usages: usize, before: Identity, after: Option<Identity>) -> (r: bool)
    ensures
        r == keeps_process_view(usages as nat, before, after),
{
    usages > 0 && match after {
        Some(a) => a.pid == before.pid && a.started == before.started && a.started_sub == before.started_sub,
        None => false,
    }
}

/// Before a signal is sent, the process must still be the reviewed birth identity: its
/// current identity, as read again, must be the expected one; a read that failed is
/// reported as it failed, and another identity as a change.
pub fn revalidate(expected: Identity, current: Result<Identity, crate::model::Error>) -> (r: Result<(), crate::model::Error>)
    ensures
        r is Ok <==> current == Ok::<Identity, crate::model::Error>(expected),
        current matches Ok(id) && id != expected ==> r == Err::<(), crate::model::Error>(crate::model::Error::Changed),
        current matches Err(e) ==> r == Err::<(), crate::model::Error>(e),
{
    match current {
        Ok(id) => if id.pid == expected.pid && id.started == expected.started && id.started_sub == expected.started_sub {
            Ok(())
        } else {
            Err(crate::model::Error::Changed)
        },
        Err(e) => Err(e),
    }
}

/// A process lives in another mount namespace than the scanner when both namespace links
/// were read and differ; such a process is counted and left out of the scan.
pub open spec fn other_namespace_view(own: Option<Seq<u8>>, theirs: Option<Seq<u8>>) -> bool {
    match (own, theirs) {
        (Some(a), Some(b)) => a != b,
        _ => false,
    }
}

/// Whether a process lives in another mount namespace than the scanner.
pub fn other_namespace(own: &Option<Vec<u8>>, theirs: &Option<Vec<u8>>) -> (r: bool)
    ensures
        r == other_namespace_view(
            match own { Some(a) => Some(a@), None => None },
            match theirs { Some(b) => Some(b@), None => None },
        ),
{
    match (own, theirs) {
        (Some(a), Some(b)) => {
            if a.len() != b.len() {
                return true;
            }
            let same = crate::text::bytes_occur_at(a, b, 0);
            assert(a@.subrange(0, b@.len() as int) =~= a@);
            !same
        },
        _ => false,
    }
}

/// One step of the ancestry walk at `pid`: the ancestor its status record names, and the
/// parent to visit next; when the record could not be read, an "unavailable" ancestor with
/// only the PID known, and the walk ends.
pub open spec fn ancestor_step_view(pid: u32, found: Option<(Identity, Seq<char>, u32)>) -> (crate::model::AncestorView, Option<u32>) {
    match found {
        Some((identity, name, parent)) => (crate::model::AncestorView { identity, name }, Some(parent)),
        None => (
            crate::model::AncestorView { identity: Identity { pid, started: 0, started_sub: 0 }, name: "unavailable"@ },
            None,
        ),
    }
}

/// One step of the ancestry walk, from the status record read at `pid`, if any.
pub fn ancestor_step(pid: u32, found: Option<Stat>) -> (r: (crate::model::Ancestor, Option<u32>))
    ensures
        (r.0@, r.1) == ancestor_step_view(pid, match found {
            Some(s) => Some((s.identity, s.name@, s.parent)),
            None => None,
        }),
{
    match found {
        Some(s) => (crate::model::Ancestor { identity: s.identity, name: s.name }, Some(s.parent)),
        None => (
            crate::model::Ancestor { identity: Identity { pid, started: 0, started_sub: 0 }, name: String::from_str("unavailable") },
            None,
        ),
    }
}

/// The user a scan records: the account name when the owner was found, else "unknown".
pub fn user_or_unknown(name: Option<String>) -> (r: String)
    ensures
        r@ == match name {
            Some(n) => n@,
            None => "unknown"@,
        },
{
    match name {
        Some(n) => n,
        None => String::from_str("unknown"),
    }
}

} // verus!
