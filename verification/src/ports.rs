//! Local network bindings and exact-port search semantics.
use vstd::prelude::*;
use crate::model::{Process, ProcessView};
use crate::search::{Field, FieldView, Query, Scratch, TermView, field_view, fields_view, join_words, query_matches, term_view};
use crate::text::{
    decimal, decimal_of, chars_of, lossy, parse_text, parse_text_number, push_decimal, split_whitespace,
    starts_with, utf8_lossy, words,
};

verus! {

/// Transport protocol of a local binding.
#[derive(Clone, Copy, Debug, PartialEq, Eq, Hash, PartialOrd, Ord, Structural)]
pub enum Protocol {
    /// A TCP socket in the listening state.
    Tcp,
    /// A bound UDP socket; UDP has no listening handshake.
    Udp,
}

/// Search label of a protocol.
pub open spec fn protocol_label(p: Protocol) -> Seq<char> {
    match p {
        Protocol::Tcp => "TCP"@,
        Protocol::Udp => "UDP"@,
    }
}

/// Evidence label of a protocol.
pub open spec fn protocol_state(p: Protocol) -> Seq<char> {
    match p {
        Protocol::Tcp => "LISTEN"@,
        Protocol::Udp => "BOUND"@,
    }
}

impl Protocol {
    /// Stable display and search label.
    pub fn label(self) -> (r: &'static str)
        ensures
            r@ == protocol_label(self),
    {
        match self {
            Protocol::Tcp => "TCP",
            Protocol::Udp => "UDP",
        }
    }

    /// Describe the evidence without claiming external reachability.
    pub fn state(self) -> (r: &'static str)
        ensures
            r@ == protocol_state(self),
    {
        match self {
            Protocol::Tcp => "LISTEN",
            Protocol::Udp => "BOUND",
        }
    }
}

/// A local interface address, by its numeric value in network order.
#[derive(Clone, Copy, Debug, PartialEq, Eq, Hash, PartialOrd, Ord, Structural)]
pub enum IpAddress {
    V4(u32),
    V6(u128),
}

/// An observed local binding, not proof of network reachability.
#[derive(Clone, Copy, Debug, PartialEq, Eq, Hash, PartialOrd, Ord, Structural)]
pub struct Port {
    /// TCP listener or bound UDP socket.
    pub protocol: Protocol,
    /// Local interface address; an unspecified address means all interfaces.
    pub address: IpAddress,
    /// Local port number in host byte order.
    pub number: u16,
}

/// The eight 16-bit groups of an IPv6 address, most significant first.
pub open spec fn groups(bits: u128) -> Seq<u16> {
    Seq::new(8, |i: int| ((bits >> ((112 - 16 * i) as u128)) & 0xffffu128) as u16)
}

/// Lowercase hexadecimal digit for `d < 16`.
pub open spec fn hex_char(d: nat) -> char {
    if d < 10 { crate::text::digit_char(d) } else if d == 10 { 'a' } else if d == 11 { 'b' }
    else if d == 12 { 'c' } else if d == 13 { 'd' } else if d == 14 { 'e' } else { 'f' }
}

/// Lowercase hexadecimal representation of `n` without leading zeros.
pub open spec fn hex(n: nat) -> Seq<char>
    decreases n,
{
    if n < 16 { seq![hex_char(n)] } else { hex(n / 16).push(hex_char(n % 16)) }
}

/// Groups in hexadecimal, separated by colons.
pub open spec fn hex_groups(g: Seq<u16>) -> Seq<char>
    decreases g.len(),
{
    if g.len() == 0 {
        Seq::empty()
    } else if g.len() == 1 {
        hex(g[0] as nat)
    } else {
        hex_groups(g.drop_last()) + seq![':'] + hex(g.last() as nat)
    }
}

/// The first longest run of zero groups from position `i` on, given the run `cur` in
/// progress and the longest `best` so far, as (start, length).
pub open spec fn zero_run(g: Seq<u16>, i: int, cur: (int, int), best: (int, int)) -> (int, int)
    decreases g.len() - i,
{
    if i >= g.len() {
        best
    } else if g[i] == 0 {
        let c = (if cur.1 == 0 { i } else { cur.0 }, cur.1 + 1);
        zero_run(g, i + 1, c, if c.1 > best.1 { c } else { best })
    } else {
        zero_run(g, i + 1, (0, 0), best)
    }
}

/// RFC 5952 text of an IPv6 address: IPv4-mapped addresses as `::ffff:a.b.c.d`; otherwise
/// lowercase hexadecimal groups with the first longest run of two or more zero groups
/// written as `::`.
pub open spec fn ipv6_text(bits: u128) -> Seq<char> {
    let g = groups(bits);
    if g[0] == 0 && g[1] == 0 && g[2] == 0 && g[3] == 0 && g[4] == 0 && g[5] == 0xffff {
        "::ffff:"@ + ipv4_text(((g[6] as u32) * 65536 + g[7] as u32) as u32)
    } else {
        let z = zero_run(g, 0, (0, 0), (0, 0));
        if z.1 > 1 {
            hex_groups(g.subrange(0, z.0)) + "::"@ + hex_groups(g.subrange(z.0 + z.1, 8))
        } else {
            hex_groups(g)
        }
    }
}

fn hex_digit(d: u64) -> (c: char)
    requires
        d < 16,
    ensures
        c == hex_char(d as nat),
{
    match d {
        0 => '0',
        1 => '1',
        2 => '2',
        3 => '3',
        4 => '4',
        5 => '5',
        6 => '6',
        7 => '7',
        8 => '8',
        9 => '9',
        10 => 'a',
        11 => 'b',
        12 => 'c',
        13 => 'd',
        14 => 'e',
        _ => 'f',
    }
}

/// Appends the lowercase hexadecimal representation of `n`.
fn push_hex(out: &mut Vec<char>, n: u64)
    ensures
        final(out)@ == old(out)@ + hex(n as nat),
    decreases n,
{
    if n >= 16 {
        push_hex(out, n / 16);
    }
    out.push(hex_digit(n % 16));
    assert(out@ =~= old(out)@ + hex(n as nat));
}

/// Appends groups `g[from..to]` in hexadecimal, separated by colons.
fn push_groups(out: &mut Vec<char>, g: &[u16; 8], from: usize, to: usize)
    requires
        from <= to <= 8,
    ensures
        final(out)@ == old(out)@ + hex_groups(g@.subrange(from as int, to as int)),
{
    let mut i = from;
    while i < to
        invariant
            from <= i <= to <= 8,
            out@ == old(out)@ + hex_groups(g@.subrange(from as int, i as int)),
        decreases to - i,
    {
        let ghost before = out@;
        if i > from {
            out.push(':');
        }
        push_hex(out, g[i] as u64);
        proof {
            let next = g@.subrange(from as int, i + 1);
            assert(next.drop_last() =~= g@.subrange(from as int, i as int));
            if i == from {
                assert(g@.subrange(from as int, i as int).len() == 0);
                assert(out@ =~= old(out)@ + hex_groups(next));
            } else {
                assert(out@ =~= old(out)@ + hex_groups(next));
            }
        }
        i = i + 1;
    }
}

fn ipv6_chars(bits: u128) -> (r: Vec<char>)
    ensures
        r@ == ipv6_text(bits),
{
    let mut g: [u16; 8] = [0; 8];
    let mut i: usize = 0;
    while i < 8
        invariant
            i <= 8,
            forall|k: int| 0 <= k < i ==> g@[k] == groups(bits)[k],
        decreases 8 - i,
    {
        let shift: u128 = (112 - 16 * i) as u128;
        g[i] = ((bits >> shift) & 0xffff) as u16;
        i = i + 1;
    }
    assert(g@ =~= groups(bits));
    if g[0] == 0 && g[1] == 0 && g[2] == 0 && g[3] == 0 && g[4] == 0 && g[5] == 0xffff {
        let mut out = chars_of("::ffff:");
        let v4 = ipv4_chars((g[6] as u32) * 65536 + g[7] as u32);
        let ghost before = out@;
        let mut k: usize = 0;
        while k < v4.len()
            invariant
                k <= v4@.len(),
                out@ == before + v4@.take(k as int),
            decreases v4@.len() - k,
        {
            out.push(v4[k]);
            assert(v4@.take(k as int + 1) =~= v4@.take(k as int).push(v4@[k as int]));
            k = k + 1;
        }
        assert(v4@.take(v4@.len() as int) =~= v4@);
        return out;
    }
    let mut best_start: usize = 0;
    let mut best_len: usize = 0;
    let mut cur_start: usize = 0;
    let mut cur_len: usize = 0;
    let mut j: usize = 0;
    while j < 8
        invariant
            j <= 8,
            g@ == groups(bits),
            cur_start + cur_len <= j,
            best_start + best_len <= j,
            zero_run(g@, 0, (0, 0), (0, 0)) == zero_run(g@, j as int, (cur_start as int, cur_len as int), (best_start as int, best_len as int)),
        decreases 8 - j,
    {
        if g[j] == 0 {
            if cur_len == 0 {
                cur_start = j;
            }
            cur_len = cur_len + 1;
            if cur_len > best_len {
                best_start = cur_start;
                best_len = cur_len;
            }
        } else {
            cur_start = 0;
            cur_len = 0;
        }
        j = j + 1;
    }
    let mut out: Vec<char> = Vec::new();
    if best_len > 1 {
        push_groups(&mut out, &g, 0, best_start);
        out.push(':');
        out.push(':');
        proof {
            reveal_strlit("::");
        }
        push_groups(&mut out, &g, best_start + best_len, 8);
        assert(out@ =~= hex_groups(g@.subrange(0, best_start as int)) + "::"@ + hex_groups(g@.subrange(best_start + best_len, 8)));
    } else {
        push_groups(&mut out, &g, 0, 8);
        assert(g@.subrange(0, 8) =~= g@);
    }
    out
}

/// Dotted-decimal text of an IPv4 address.
pub open spec fn ipv4_text(bits: u32) -> Seq<char> {
    decimal((bits / 16777216) as nat) + seq!['.'] + decimal(((bits / 65536) % 256) as nat) + seq!['.']
        + decimal(((bits / 256) % 256) as nat) + seq!['.'] + decimal((bits % 256) as nat)
}

/// Text of an address, as `IpAddr`'s `Display` writes it.
pub open spec fn address_text(a: IpAddress) -> Seq<char> {
    match a {
        IpAddress::V4(bits) => ipv4_text(bits),
        IpAddress::V6(bits) => ipv6_text(bits),
    }
}

fn ipv4_chars(bits: u32) -> (r: Vec<char>)
    ensures
        r@ == ipv4_text(bits),
{
    let mut out: Vec<char> = Vec::new();
    push_decimal(&mut out, (bits / 16777216) as u64);
    out.push('.');
    push_decimal(&mut out, ((bits / 65536) % 256) as u64);
    out.push('.');
    push_decimal(&mut out, ((bits / 256) % 256) as u64);
    out.push('.');
    push_decimal(&mut out, (bits % 256) as u64);
    assert(out@ =~= ipv4_text(bits));
    out
}

impl IpAddress {
    /// The address as text.
    pub fn text(&self) -> (r: Vec<char>)
        ensures
            r@ == address_text(*self),
    {
        match *self {
            IpAddress::V4(bits) => ipv4_chars(bits),
            IpAddress::V6(bits) => ipv6_chars(bits),
        }
    }

    /// Whether this is an IPv4 address.
    pub fn is_ipv4(&self) -> (r: bool)
        ensures
            r == (*self is V4),
    {
        match self {
            IpAddress::V4(_) => true,
            IpAddress::V6(_) => false,
        }
    }
}

/// The fields of a process-owned binding: owner name (ranked as a name), PID as number and
/// as `pid:N`, user, executable, working directory, protocol, state, address and family.
pub open spec fn port_index_views(p: ProcessView, port: Port) -> Seq<FieldView> {
    seq![
        field_view(p.name, true),
        field_view(decimal(p.identity.pid as nat), false),
        field_view("pid:"@ + decimal(p.identity.pid as nat), false),
        field_view(p.user, false),
        field_view(utf8_lossy(p.executable), false),
        field_view(utf8_lossy(p.cwd), false),
        field_view(protocol_label(port.protocol), false),
        field_view(protocol_state(port.protocol), false),
        field_view(address_text(port.address), false),
        field_view(if port.address is V4 { "ipv4"@ } else { "ipv6"@ }, false),
    ]
}

/// Cached fields for a process-owned binding.
pub struct PortIndex {
    fields: Vec<Field>,
}

impl View for PortIndex {
    type V = Seq<FieldView>;

    closed spec fn view(&self) -> Seq<FieldView> {
        fields_view(self.fields@)
    }
}

impl PortIndex {
    /// Build textual fields once per snapshot, preserving numeric-port matching separately.
    pub fn new(process: &Process, port: &Port) -> (r: Self)
        ensures
            r@ == port_index_views(process@, *port),
    {
        let mut fields: Vec<Field> = Vec::new();
        fields.push(Field::new(process.name.as_str(), true));
        let pid = decimal_of(process.identity.pid as u64);
        fields.push(Field::from_chars(&pid, false));
        let mut tagged = chars_of("pid:");
        push_decimal(&mut tagged, process.identity.pid as u64);
        fields.push(Field::from_chars(&tagged, false));
        fields.push(Field::new(process.user.as_str(), false));
        let exe = lossy(&process.executable);
        fields.push(Field::from_chars(&exe, false));
        let cwd = lossy(&process.cwd);
        fields.push(Field::from_chars(&cwd, false));
        fields.push(Field::new(port.protocol.label(), false));
        fields.push(Field::new(port.protocol.state(), false));
        let address = port.address.text();
        fields.push(Field::from_chars(&address, false));
        fields.push(Field::new(if port.address.is_ipv4() { "ipv4" } else { "ipv6" }, false));
        let r = PortIndex { fields };
        assert(r@ =~= port_index_views(process@, *port));
        r
    }
}

/// ASCII lowercase of a character.
pub open spec fn ascii_lower(c: char) -> char {
    if 'A' <= c <= 'Z' { ((c as u32) + 32) as char } else { c }
}

/// The number part of a port term: what follows a case-insensitive `port:` prefix, or the
/// whole term when it consists of ASCII digits; `None` for text terms.
pub open spec fn port_term(term: Seq<char>) -> Option<Seq<char>> {
    let lower = term.map_values(|c: char| ascii_lower(c));
    if starts_with(lower, "port:"@) {
        Some(lower.skip(5))
    } else if forall|i: int| 0 <= i < term.len() ==> '0' <= #[trigger] term[i] <= '9' {
        Some(term)
    } else {
        None
    }
}

/// Port numbers, text words and validity after reading the given words: every port term
/// must name a port from 1 to 65535.
pub open spec fn port_terms(ws: Seq<Seq<char>>) -> (Seq<u16>, Seq<Seq<char>>, bool)
    decreases ws.len(),
{
    if ws.len() == 0 {
        (Seq::empty(), Seq::empty(), true)
    } else {
        let (ports, text, valid) = port_terms(ws.drop_last());
        match port_term(ws.last()) {
            Some(n) => match parse_text(n, 10, 65535) {
                Some(x) => if x > 0 { (ports.push(x as u16), text, valid) } else { (ports, text, false) },
                None => (ports, text, false),
            },
            None => (ports, text.push(ws.last()), valid),
        }
    }
}

/// The abstract content of a port query.
pub struct PortQueryView {
    pub ports: Seq<u16>,
    pub text: Seq<TermView>,
    pub valid: bool,
}

/// The port query compiled from text: exact ports, a text query of the other words, and
/// whether every port term was a valid port.
pub open spec fn port_query_view(text: Seq<char>) -> PortQueryView {
    let (ports, ws, valid) = port_terms(words(text));
    PortQueryView { ports, text: words(join_words(ws)).map_values(|w: Seq<char>| term_view(w)), valid }
}

/// A port query matches a binding and its cached fields.
pub open spec fn port_query_matches(q: PortQueryView, port: Port, fields: Seq<FieldView>) -> bool {
    &&& q.valid
    &&& forall|i: int| 0 <= i < q.ports.len() ==> #[trigger] q.ports[i] == port.number
    &&& query_matches(q.text, fields)
}

/// Text search with exact numeric port terms (for example `3000` or `port:3000`).
pub struct PortQuery {
    ports: Vec<u16>,
    text: Query,
    valid: bool,
}

impl View for PortQuery {
    type V = PortQueryView;

    closed spec fn view(&self) -> PortQueryView {
        PortQueryView { ports: self.ports@, text: self.text@, valid: self.valid }
    }
}

fn port_number_part(term: &Vec<char>) -> (r: Option<Vec<char>>)
    ensures
        match r {
            Some(n) => port_term(term@) == Some(n@),
            None => port_term(term@) is None,
        },
{
    let mut lower: Vec<char> = Vec::new();
    let mut i: usize = 0;
    while i < term.len()
        invariant
            i <= term@.len(),
            lower@ == term@.take(i as int).map_values(|c: char| ascii_lower(c)),
        decreases term@.len() - i,
    {
        let c = term[i];
        let l = if 'A' <= c && c <= 'Z' { ((c as u8) + 32) as char } else { c };
        assert(l == ascii_lower(c));
        lower.push(l);
        assert(term@.take(i as int + 1).map_values(|c: char| ascii_lower(c)) =~= term@.take(i as int).map_values(
            |c: char| ascii_lower(c),
        ).push(ascii_lower(c)));
        i = i + 1;
    }
    assert(term@.take(term@.len() as int) =~= term@);
    let prefix = chars_of("port:");
    if crate::text::chars_occur_at(&lower, &prefix, 0) {
        let mut rest: Vec<char> = Vec::new();
        let mut k: usize = prefix.len();
        while k < lower.len()
            invariant
                prefix@.len() <= k <= lower@.len(),
                rest@ == lower@.subrange(prefix@.len() as int, k as int),
            decreases lower@.len() - k,
        {
            rest.push(lower[k]);
            assert(lower@.subrange(prefix@.len() as int, k + 1) =~= lower@.subrange(prefix@.len() as int, k as int).push(lower@[k as int]));
            k = k + 1;
        }
        proof {
            reveal_strlit("port:");
            assert(rest@ =~= lower@.skip(5));
        }
        return Some(rest);
    }
    let mut j: usize = 0;
    while j < term.len()
        invariant
            j <= term@.len(),
            lower@ == term@.map_values(|c: char| ascii_lower(c)),
            !starts_with(lower@, "port:"@),
            forall|m: int| 0 <= m < j ==> '0' <= #[trigger] term@[m] <= '9',
        decreases term@.len() - j,
    {
        if !('0' <= term[j] && term[j] <= '9') {
            return None;
        }
        j = j + 1;
    }
    let mut copy: Vec<char> = Vec::new();
    let mut m: usize = 0;
    while m < term.len()
        invariant
            m <= term@.len(),
            copy@ == term@.take(m as int),
        decreases term@.len() - m,
    {
        copy.push(term[m]);
        assert(term@.take(m as int + 1) =~= term@.take(m as int).push(term@[m as int]));
        m = m + 1;
    }
    assert(term@.take(term@.len() as int) =~= term@);
    Some(copy)
}

impl PortQuery {
    /// Compile all terms as an AND query. Invalid port numbers match nothing.
    pub fn new(text: &str) -> (r: Self)
        ensures
            r@ == port_query_view(text@),
    {
        let chars = chars_of(text);
        let terms = split_whitespace(&chars);
        let ghost ws = words(text@);
        let mut ports: Vec<u16> = Vec::new();
        let mut rest: Vec<Vec<char>> = Vec::new();
        let mut valid = true;
        let mut i: usize = 0;
        while i < terms.len()
            invariant
                i <= terms@.len(),
                terms@.map_values(|w: Vec<char>| w@) == ws,
                port_terms(ws.take(i as int)) == (ports@, rest@.map_values(|w: Vec<char>| w@), valid),
            decreases terms@.len() - i,
        {
            proof {
                assert(ws.take(i as int + 1).drop_last() =~= ws.take(i as int));
                assert(ws.take(i as int + 1).last() == terms@[i as int]@);
            }
            let ghost before = rest@.map_values(|w: Vec<char>| w@);
            match port_number_part(&terms[i]) {
                Some(number) => match parse_text_number(&number, 10, 65535) {
                    Some(x) => {
                        if x > 0 {
                            ports.push(x as u16);
                        } else {
                            valid = false;
                        }
                    },
                    None => {
                        valid = false;
                    },
                },
                None => {
                    rest.push(copy_word(&terms[i]));
                    assert(rest@.map_values(|w: Vec<char>| w@) =~= before.push(terms@[i as int]@));
                },
            }
            i = i + 1;
        }
        assert(ws.take(terms@.len() as int) =~= ws);
        let joined = join(&rest);
        let query = Query::from_chars(&joined);
        PortQuery { ports, text: query, valid }
    }

    /// Match a binding and its cached owner metadata.
    pub fn matches(&self, port: &Port, index: &PortIndex, scratch: &mut Scratch) -> (r: bool)
        ensures
            r == port_query_matches(self@, *port, index@),
    {
        if !self.valid {
            return false;
        }
        let mut i: usize = 0;
        while i < self.ports.len()
            invariant
                i <= self.ports@.len(),
                forall|k: int| 0 <= k < i ==> #[trigger] self.ports@[k] == port.number,
            decreases self.ports@.len() - i,
        {
            if self.ports[i] != port.number {
                assert(self@.ports[i as int] != port.number);
                return false;
            }
            i = i + 1;
        }
        self.text.matches(&index.fields, scratch)
    }
}

fn copy_word(w: &Vec<char>) -> (r: Vec<char>)
    ensures
        r@ == w@,
{
    let mut out: Vec<char> = Vec::new();
    let mut i: usize = 0;
    while i < w.len()
        invariant
            i <= w@.len(),
            out@ == w@.take(i as int),
        decreases w@.len() - i,
    {
        out.push(w[i]);
        assert(w@.take(i as int + 1) =~= w@.take(i as int).push(w@[i as int]));
        i = i + 1;
    }
    assert(w@.take(w@.len() as int) =~= w@);
    out
}

/// Words joined by single spaces.
fn join(ws: &Vec<Vec<char>>) -> (r: Vec<char>)
    ensures
        r@ == join_words(ws@.map_values(|w: Vec<char>| w@)),
{
    let ghost v = ws@.map_values(|w: Vec<char>| w@);
    let mut out: Vec<char> = Vec::new();
    let mut i: usize = 0;
    while i < ws.len()
        invariant
            i <= ws@.len(),
            v == ws@.map_values(|w: Vec<char>| w@),
            out@ == join_words(v.take(i as int)),
        decreases ws@.len() - i,
    {
        let ghost before = out@;
        if i > 0 {
            out.push(' ');
        }
        let ghost mid = out@;
        let word = &ws[i];
        let mut k: usize = 0;
        while k < word.len()
            invariant
                k <= word@.len(),
                out@ == mid + word@.take(k as int),
            decreases word@.len() - k,
        {
            out.push(word[k]);
            assert(word@.take(k as int + 1) =~= word@.take(k as int).push(word@[k as int]));
            k = k + 1;
        }
        proof {
            assert(word@.take(word@.len() as int) =~= word@);
            assert(v.take(i as int + 1).drop_last() =~= v.take(i as int));
            assert(v[i as int] == word@);
            if i == 0 {
                assert(out@ =~= word@);
            } else {
                assert(out@ =~= before + seq![' '] + word@);
            }
        }
        i = i + 1;
    }
    assert(v.take(v.len() as int) =~= v);
    out
}

} // verus!
