//! The library's own model of an IP address: an IPv4 address as four
//! octets, an IPv6 address as eight 16-bit segments. The literal grammars
//! are defined here as specification functions, the parsers and renderers
//! are proved against them, and rendering round-trips through parsing.
//!
//! The IPv4 grammar is four dot-separated decimal octets, each without
//! leading zeros. The IPv6 grammar is colon-separated groups of one to
//! four hexadecimal digits, either eight groups in full or fewer with one
//! `::` standing for at least one zero group; the last group position may
//! hold an embedded IPv4 literal, which stands for two groups. Zone
//! suffixes are not part of these grammars.

use vstd::prelude::*;

verus! {

use vstd::arithmetic::div_mod::{lemma_div_denominator, lemma_fundamental_div_mod};

/// An IPv4 address as its four octets, most significant first.
#[derive(Clone, Copy, PartialEq, Eq, Structural, Debug)]
pub struct Ipv4Address {
    pub a: u8,
    pub b: u8,
    pub c: u8,
    pub d: u8,
}

/// An IPv6 address as its eight 16-bit segments, most significant first.
#[derive(Clone, Copy, PartialEq, Eq, Structural, Debug)]
pub struct Ipv6Address {
    pub s0: u16,
    pub s1: u16,
    pub s2: u16,
    pub s3: u16,
    pub s4: u16,
    pub s5: u16,
    pub s6: u16,
    pub s7: u16,
}

/// Either family, as the resolver hands it on.
#[derive(Clone, Copy, PartialEq, Eq, Structural, Debug)]
pub enum IpAddress {
    V4(Ipv4Address),
    V6(Ipv6Address),
}

impl Ipv6Address {
    /// The eight segments in order, for contracts.
    pub open spec fn segments(&self) -> Seq<u16> {
        seq![self.s0, self.s1, self.s2, self.s3, self.s4, self.s5, self.s6, self.s7]
    }
}

/// A decimal digit.
pub open spec fn is_dec_digit(c: char) -> bool {
    '0' <= c && c <= '9'
}

/// Numeric value of a decimal digit.
pub open spec fn dec_val(c: char) -> int {
    c as int - '0' as int
}

/// A hexadecimal digit, either case.
pub open spec fn is_hex_digit(c: char) -> bool {
    is_dec_digit(c) || ('a' <= c && c <= 'f') || ('A' <= c && c <= 'F')
}

/// Numeric value of a hexadecimal digit.
pub open spec fn hex_val(c: char) -> int {
    if is_dec_digit(c) {
        dec_val(c)
    } else if 'a' <= c && c <= 'f' {
        10 + c as int - 'a' as int
    } else {
        10 + c as int - 'A' as int
    }
}

/// A whole token as one decimal octet: one to three digits, no leading
/// zero, value at most 255.
pub open spec fn spec_parse_dec_octet(s: Seq<char>) -> Option<u8> {
    if s.len() == 1 && is_dec_digit(s[0]) {
        Some(dec_val(s[0]) as u8)
    } else if s.len() == 2 && is_dec_digit(s[0]) && is_dec_digit(s[1]) && s[0] != '0' {
        Some((dec_val(s[0]) * 10 + dec_val(s[1])) as u8)
    } else if s.len() == 3 && is_dec_digit(s[0]) && is_dec_digit(s[1]) && is_dec_digit(s[2])
        && s[0] != '0' && dec_val(s[0]) * 100 + dec_val(s[1]) * 10 + dec_val(s[2]) <= 255 {
        Some((dec_val(s[0]) * 100 + dec_val(s[1]) * 10 + dec_val(s[2])) as u8)
    } else {
        None
    }
}

/// A whole token as one 16-bit group: one to four hexadecimal digits,
/// leading zeros allowed.
pub open spec fn spec_parse_h16(s: Seq<char>) -> Option<u16> {
    if s.len() == 1 && is_hex_digit(s[0]) {
        Some(hex_val(s[0]) as u16)
    } else if s.len() == 2 && is_hex_digit(s[0]) && is_hex_digit(s[1]) {
        Some((hex_val(s[0]) * 16 + hex_val(s[1])) as u16)
    } else if s.len() == 3 && is_hex_digit(s[0]) && is_hex_digit(s[1]) && is_hex_digit(s[2]) {
        Some((hex_val(s[0]) * 256 + hex_val(s[1]) * 16 + hex_val(s[2])) as u16)
    } else if s.len() == 4 && is_hex_digit(s[0]) && is_hex_digit(s[1]) && is_hex_digit(s[2])
        && is_hex_digit(s[3]) {
        Some(
            (hex_val(s[0]) * 4096 + hex_val(s[1]) * 256 + hex_val(s[2]) * 16 + hex_val(
                s[3],
            )) as u16,
        )
    } else {
        None
    }
}

/// Whether a character is a decimal digit.
fn is_dec_digit_exec(c: char) -> (b: bool)
    ensures
        b == is_dec_digit(c),
{
    '0' <= c && c <= '9'
}

/// Whether a character is a hexadecimal digit.
fn is_hex_digit_exec(c: char) -> (b: bool)
    ensures
        b == is_hex_digit(c),
{
    ('0' <= c && c <= '9') || ('a' <= c && c <= 'f') || ('A' <= c && c <= 'F')
}

/// Numeric value of a decimal digit.
fn dec_val_exec(c: char) -> (v: u8)
    requires
        is_dec_digit(c),
    ensures
        v == dec_val(c),
{
    (c as u8) - 48
}

/// Numeric value of a hexadecimal digit.
fn hex_val_exec(c: char) -> (v: u8)
    requires
        is_hex_digit(c),
    ensures
        v == hex_val(c),
{
    if '0' <= c && c <= '9' {
        (c as u8) - 48
    } else if 'a' <= c && c <= 'f' {
        (c as u8) - 97 + 10
    } else {
        (c as u8) - 65 + 10
    }
}

/// Parses a whole token as a decimal octet.
fn parse_dec_octet(t: &str) -> (r: Option<u8>)
    ensures
        r == spec_parse_dec_octet(t@),
{
    let n = t.unicode_len();
    if n == 1 {
        let c0 = t.get_char(0);
        if is_dec_digit_exec(c0) {
            Some(dec_val_exec(c0))
        } else {
            None
        }
    } else if n == 2 {
        let c0 = t.get_char(0);
        let c1 = t.get_char(1);
        if is_dec_digit_exec(c0) && is_dec_digit_exec(c1) && c0 != '0' {
            Some(dec_val_exec(c0) * 10 + dec_val_exec(c1))
        } else {
            None
        }
    } else if n == 3 {
        let c0 = t.get_char(0);
        let c1 = t.get_char(1);
        let c2 = t.get_char(2);
        if is_dec_digit_exec(c0) && is_dec_digit_exec(c1) && is_dec_digit_exec(c2) && c0 != '0' {
            let v: u16 = (dec_val_exec(c0) as u16) * 100 + (dec_val_exec(c1) as u16) * 10
                + dec_val_exec(c2) as u16;
            if v <= 255 {
                Some(v as u8)
            } else {
                None
            }
        } else {
            None
        }
    } else {
        None
    }
}

/// Parses a whole token as a 16-bit hexadecimal group.
fn parse_h16(t: &str) -> (r: Option<u16>)
    ensures
        r == spec_parse_h16(t@),
{
    let n = t.unicode_len();
    if n == 1 {
        let c0 = t.get_char(0);
        if is_hex_digit_exec(c0) {
            Some(hex_val_exec(c0) as u16)
        } else {
            None
        }
    } else if n == 2 {
        let c0 = t.get_char(0);
        let c1 = t.get_char(1);
        if is_hex_digit_exec(c0) && is_hex_digit_exec(c1) {
            Some((hex_val_exec(c0) as u16) * 16 + hex_val_exec(c1) as u16)
        } else {
            None
        }
    } else if n == 3 {
        let c0 = t.get_char(0);
        let c1 = t.get_char(1);
        let c2 = t.get_char(2);
        if is_hex_digit_exec(c0) && is_hex_digit_exec(c1) && is_hex_digit_exec(c2) {
            Some(
                (hex_val_exec(c0) as u16) * 256 + (hex_val_exec(c1) as u16) * 16 + hex_val_exec(
                    c2,
                ) as u16,
            )
        } else {
            None
        }
    } else if n == 4 {
        let c0 = t.get_char(0);
        let c1 = t.get_char(1);
        let c2 = t.get_char(2);
        let c3 = t.get_char(3);
        if is_hex_digit_exec(c0) && is_hex_digit_exec(c1) && is_hex_digit_exec(c2)
            && is_hex_digit_exec(c3) {
            Some(
                (hex_val_exec(c0) as u16) * 4096 + (hex_val_exec(c1) as u16) * 256 + (hex_val_exec(
                    c2,
                ) as u16) * 16 + hex_val_exec(c3) as u16,
            )
        } else {
            None
        }
    } else {
        None
    }
}

/// The tokens of `s` between occurrences of the separator, in order. An
/// empty `s` is one empty token; `n` separators give `n + 1` tokens.
pub open spec fn split_on(s: Seq<char>, sep: char) -> Seq<Seq<char>>
    decreases s.len(),
{
    if s.len() == 0 {
        seq![Seq::<char>::empty()]
    } else if s[0] == sep {
        seq![Seq::<char>::empty()] + split_on(s.skip(1), sep)
    } else {
        let rest = split_on(s.skip(1), sep);
        seq![seq![s[0]] + rest[0]] + rest.skip(1)
    }
}

/// There is always at least one token.
pub proof fn lemma_split_on_len(s: Seq<char>, sep: char)
    ensures
        split_on(s, sep).len() >= 1,
    decreases s.len(),
{
    if s.len() > 0 {
        lemma_split_on_len(s.skip(1), sep);
    }
}

/// How the token list starts: up to the first separator it is the prefix
/// read so far, and what follows that separator splits on its own.
pub proof fn lemma_split_head(s: Seq<char>, sep: char, i: int)
    requires
        0 <= i <= s.len(),
        forall|k: int| 0 <= k < i ==> s[k] != sep,
        i < s.len() ==> s[i] == sep,
    ensures
        i == s.len() ==> split_on(s, sep) == seq![s],
        i < s.len() ==> split_on(s, sep) == seq![s.take(i)] + split_on(s.skip(i + 1), sep),
    decreases s.len(),
{
    lemma_split_on_len(s, sep);
    if s.len() == 0 {
        assert(s =~= Seq::<char>::empty());
        assert(split_on(s, sep) =~= seq![s]);
    } else if s[0] == sep {
        assert(i == 0);
        assert(s.take(0) =~= Seq::<char>::empty());
        assert(split_on(s, sep) =~= seq![s.take(0)] + split_on(s.skip(1), sep));
    } else {
        let rest = split_on(s.skip(1), sep);
        lemma_split_on_len(s.skip(1), sep);
        assert(forall|k: int| 0 <= k < i - 1 ==> s.skip(1)[k] != sep);
        lemma_split_head(s.skip(1), sep, i - 1);
        if i == s.len() {
            assert(rest == seq![s.skip(1)]);
            assert(seq![s[0]] + s.skip(1) =~= s);
            assert(split_on(s, sep) =~= seq![s]);
        } else {
            assert(rest == seq![s.skip(1).take(i - 1)] + split_on(s.skip(1).skip(i), sep));
            assert(seq![s[0]] + s.skip(1).take(i - 1) =~= s.take(i));
            assert(s.skip(1).skip(i) =~= s.skip(i + 1));
            assert(split_on(s, sep) =~= seq![s.take(i)] + split_on(s.skip(i + 1), sep));
        }
    }
}

/// The token views of an executable split.
pub open spec fn token_views(v: Seq<String>) -> Seq<Seq<char>> {
    v.map_values(|t: String| t@)
}

/// Splits a string on a separator character; the tokens, in order, are
/// exactly what the grammar's `split_on` names.
fn split_str(s: &str, sep: char) -> (r: Vec<String>)
    ensures
        token_views(r@) == split_on(s@, sep),
{
    let n = s.unicode_len();
    let mut tokens: Vec<String> = Vec::new();
    let mut start: usize = 0;
    let mut i: usize = 0;
    proof {
        assert(s@.skip(0) =~= s@);
        assert(token_views(tokens@) + split_on(s@.skip(0), sep) =~= split_on(s@, sep));
    }
    while i < n
        invariant
            n == s@.len(),
            0 <= start <= i <= n,
            forall|k: int| start <= k < i ==> s@[k] != sep,
            split_on(s@, sep) == token_views(tokens@) + split_on(s@.skip(start as int), sep),
        decreases n - i,
    {
        if s.get_char(i) == sep {
            let tok = s.substring_char(start, i).to_owned();
            proof {
                assert(forall|k: int| 0 <= k < i - start ==> s@.skip(start as int)[k] != sep);
                lemma_split_head(s@.skip(start as int), sep, i - start as int);
                assert(s@.skip(start as int).take(i - start as int) =~= s@.subrange(
                    start as int,
                    i as int,
                ));
                assert(s@.skip(start as int).skip(i - start as int + 1) =~= s@.skip(i as int + 1));
                assert(token_views(tokens@.push(tok)) =~= token_views(tokens@) + seq![tok@]);
                assert((token_views(tokens@) + seq![tok@]) + split_on(s@.skip(i as int + 1), sep)
                    =~= token_views(tokens@) + (seq![tok@] + split_on(s@.skip(i as int + 1), sep)));
            }
            tokens.push(tok);
            start = i + 1;
        }
        i = i + 1;
    }
    let tok = s.substring_char(start, n).to_owned();
    proof {
        assert(forall|k: int| 0 <= k < n - start ==> s@.skip(start as int)[k] != sep);
        lemma_split_head(s@.skip(start as int), sep, n - start as int);
        assert(s@.skip(start as int) =~= s@.subrange(start as int, n as int));
        assert(token_views(tokens@.push(tok)) =~= token_views(tokens@) + seq![tok@]);
        assert(token_views(tokens@) + seq![s@.skip(start as int)] =~= token_views(
            tokens@.push(tok),
        ));
    }
    tokens.push(tok);
    tokens
}

/// Index of the first empty token, or the length when none is empty.
pub open spec fn first_empty(t: Seq<Seq<char>>) -> int
    decreases t.len(),
{
    if t.len() == 0 {
        0
    } else if t[0].len() == 0 {
        0
    } else {
        1 + first_empty(t.skip(1))
    }
}

/// What pins `first_empty` down: everything before it is nonempty, and it
/// lands on an empty token unless there is none.
pub proof fn lemma_first_empty_at(t: Seq<Seq<char>>, e: int)
    requires
        0 <= e <= t.len(),
        forall|k: int| 0 <= k < e ==> t[k].len() != 0,
        e < t.len() ==> t[e].len() == 0,
    ensures
        first_empty(t) == e,
    decreases t.len(),
{
    if t.len() == 0 || t[0].len() == 0 {
    } else {
        assert(forall|k: int| 0 <= k < e - 1 ==> t.skip(1)[k].len() != 0);
        lemma_first_empty_at(t.skip(1), e - 1);
    }
}

/// Every token is a hexadecimal group.
pub open spec fn all_h16(t: Seq<Seq<char>>) -> bool {
    forall|i: int| 0 <= i < t.len() ==> spec_parse_h16(t[i]) is Some
}

/// The group values of tokens that are all hexadecimal groups.
pub open spec fn h16_vals(t: Seq<Seq<char>>) -> Seq<u16> {
    Seq::new(t.len(), |i: int| spec_parse_h16(t[i]).unwrap())
}

/// `n` zero segments.
pub open spec fn zero_seq(n: int) -> Seq<u16> {
    Seq::new(n as nat, |i: int| 0u16)
}

/// The address whose segments are the head groups, then zeros, then the
/// tail groups: what one `::` in a literal stands for.
pub open spec fn ipv6_from_groups(head: Seq<u16>, tail: Seq<u16>) -> Ipv6Address {
    let gs = head + zero_seq(8 - head.len() - tail.len()) + tail;
    Ipv6Address {
        s0: gs[0],
        s1: gs[1],
        s2: gs[2],
        s3: gs[3],
        s4: gs[4],
        s5: gs[5],
        s6: gs[6],
        s7: gs[7],
    }
}

/// The IPv4 literal grammar: four dot-separated decimal octets.
pub open spec fn spec_parse_ipv4(s: Seq<char>) -> Option<Ipv4Address> {
    let t = split_on(s, '.');
    if t.len() == 4 && spec_parse_dec_octet(t[0]) is Some && spec_parse_dec_octet(t[1]) is Some
        && spec_parse_dec_octet(t[2]) is Some && spec_parse_dec_octet(t[3]) is Some {
        Some(
            Ipv4Address {
                a: spec_parse_dec_octet(t[0]).unwrap(),
                b: spec_parse_dec_octet(t[1]).unwrap(),
                c: spec_parse_dec_octet(t[2]).unwrap(),
                d: spec_parse_dec_octet(t[3]).unwrap(),
            },
        )
    } else {
        None
    }
}

/// A trailing token as an embedded dotted-quad: an IPv4 literal standing
/// for the last two groups of an IPv6 address.
pub open spec fn embedded_pair(tok: Seq<char>) -> Seq<u16> {
    let ip = spec_parse_ipv4(tok).unwrap();
    seq![(ip.a * 256 + ip.b) as u16, (ip.c * 256 + ip.d) as u16]
}

/// The IPv6 literal grammar over the colon-separated tokens: either eight
/// groups and no empty token, or one `::` — seen as the first empty token,
/// doubled when it opens the literal, trailed by an empty token when it
/// closes it — joining at most seven groups in all. The very last token
/// may instead be an IPv4 literal, which stands for two groups.
pub open spec fn spec_parse_ipv6(s: Seq<char>) -> Option<Ipv6Address> {
    let t = split_on(s, ':');
    let e = first_empty(t);
    if e == t.len() {
        if t.len() == 8 && all_h16(t) {
            Some(ipv6_from_groups(h16_vals(t), Seq::empty()))
        } else if t.len() == 7 && all_h16(t.take(6)) && spec_parse_ipv4(t[6]) is Some {
            Some(ipv6_from_groups(h16_vals(t.take(6)) + embedded_pair(t[6]), Seq::empty()))
        } else {
            None
        }
    } else {
        let head = t.take(e);
        let after = t.skip(e + 1);
        if e == 0 && !(after.len() >= 1 && after[0].len() == 0) {
            None
        } else {
            let tl = if e == 0 {
                after.skip(1)
            } else {
                after
            };
            if tl.len() == 1 && tl[0].len() == 0 {
                if all_h16(head) && head.len() <= 7 {
                    Some(ipv6_from_groups(h16_vals(head), Seq::empty()))
                } else {
                    None
                }
            } else if tl.len() >= 1 && all_h16(head) && all_h16(tl) && head.len() + tl.len()
                <= 7 {
                Some(ipv6_from_groups(h16_vals(head), h16_vals(tl)))
            } else if tl.len() >= 1 && all_h16(head) && all_h16(tl.take(tl.len() - 1))
                && spec_parse_ipv4(tl.last()) is Some && head.len() + tl.len() <= 6 {
                Some(
                    ipv6_from_groups(
                        h16_vals(head),
                        h16_vals(tl.take(tl.len() - 1)) + embedded_pair(tl.last()),
                    ),
                )
            } else {
                None
            }
        }
    }
}

/// The IP literal grammar: an IPv4 literal, else an IPv6 literal.
pub open spec fn spec_parse_ip(s: Seq<char>) -> Option<IpAddress> {
    match spec_parse_ipv4(s) {
        Some(v4) => Some(IpAddress::V4(v4)),
        None => match spec_parse_ipv6(s) {
            Some(v6) => Some(IpAddress::V6(v6)),
            None => None,
        },
    }
}

/// Parses the tokens in `[from, to)` as hexadecimal groups; yields their
/// values exactly when every one of them is a group.
fn parse_h16_list(toks: &Vec<String>, from: usize, to: usize) -> (r: Option<Vec<u16>>)
    requires
        from <= to <= toks@.len(),
    ensures
        (r matches Some(v) ==> all_h16(token_views(toks@).subrange(from as int, to as int)) && v@
            == h16_vals(token_views(toks@).subrange(from as int, to as int))),
        (r is None ==> !all_h16(token_views(toks@).subrange(from as int, to as int))),
{
    let ghost sub = token_views(toks@).subrange(from as int, to as int);
    let mut vals: Vec<u16> = Vec::new();
    let mut i: usize = from;
    while i < to
        invariant
            from <= i <= to <= toks@.len(),
            sub == token_views(toks@).subrange(from as int, to as int),
            vals@.len() == i - from,
            forall|k: int| 0 <= k < i - from ==> spec_parse_h16(sub[k]) is Some,
            forall|k: int| 0 <= k < i - from ==> vals@[k] == spec_parse_h16(sub[k]).unwrap(),
        decreases to - i,
    {
        match parse_h16(toks[i].as_str()) {
            Some(v) => {
                vals.push(v);
            },
            None => {
                assert(spec_parse_h16(sub[i - from]) is None);
                return None;
            },
        }
        i = i + 1;
    }
    proof {
        assert(vals@ =~= h16_vals(sub));
    }
    Some(vals)
}

/// Lays the head groups, the zero groups the `::` stands for, and the tail
/// groups out as one address.
fn assemble_ipv6(head: &Vec<u16>, tail: &Vec<u16>) -> (r: Ipv6Address)
    requires
        head@.len() + tail@.len() <= 8,
    ensures
        r == ipv6_from_groups(head@, tail@),
{
    let ghost gs = head@ + zero_seq(8 - head@.len() - tail@.len()) + tail@;
    let mut g: Vec<u16> = Vec::new();
    let mut i: usize = 0;
    while i < head.len()
        invariant
            i <= head@.len(),
            g@ =~= head@.subrange(0, i as int),
        decreases head@.len() - i,
    {
        g.push(head[i]);
        i = i + 1;
    }
    let zeros = 8 - head.len() - tail.len();
    let mut j: usize = 0;
    while j < zeros
        invariant
            head@.len() + tail@.len() <= 8,
            zeros == 8 - head@.len() - tail@.len(),
            j <= zeros,
            g@ =~= head@ + zero_seq(j as int),
        decreases zeros - j,
    {
        g.push(0u16);
        proof {
            assert(g@ =~= head@ + zero_seq(j + 1));
        }
        j = j + 1;
    }
    let mut k: usize = 0;
    while k < tail.len()
        invariant
            head@.len() + tail@.len() <= 8,
            zeros == 8 - head@.len() - tail@.len(),
            k <= tail@.len(),
            g@ =~= head@ + zero_seq(zeros as int) + tail@.subrange(0, k as int),
        decreases tail@.len() - k,
    {
        g.push(tail[k]);
        proof {
            assert(g@ =~= head@ + zero_seq(zeros as int) + tail@.subrange(0, k + 1));
        }
        k = k + 1;
    }
    proof {
        assert(tail@.subrange(0, tail@.len() as int) =~= tail@);
        assert(g@ =~= gs);
    }
    Ipv6Address {
        s0: g[0],
        s1: g[1],
        s2: g[2],
        s3: g[3],
        s4: g[4],
        s5: g[5],
        s6: g[6],
        s7: g[7],
    }
}

/// Parses an IPv4 literal: exactly the strings of the IPv4 grammar.
pub fn parse_ipv4(s: &str) -> (r: Option<Ipv4Address>)
    ensures
        r == spec_parse_ipv4(s@),
{
    let toks = split_str(s, '.');
    if toks.len() != 4 {
        return None;
    }
    let a = parse_dec_octet(toks[0].as_str());
    let b = parse_dec_octet(toks[1].as_str());
    let c = parse_dec_octet(toks[2].as_str());
    let d = parse_dec_octet(toks[3].as_str());
    match (a, b, c, d) {
        (Some(a), Some(b), Some(c), Some(d)) => Some(Ipv4Address { a, b, c, d }),
        _ => None,
    }
}

/// Parses an IPv6 literal: exactly the strings of the IPv6 grammar.
#[verifier::rlimit(100)]
pub fn parse_ipv6(s: &str) -> (r: Option<Ipv6Address>)
    ensures
        r == spec_parse_ipv6(s@),
{
    let toks = split_str(s, ':');
    let ghost t = token_views(toks@);
    let n = toks.len();
    let mut e: usize = 0;
    while e < n && !toks[e].as_str().is_empty()
        invariant
            n == t.len(),
            n == toks@.len(),
            t == token_views(toks@),
            e <= n,
            forall|k: int| 0 <= k < e ==> t[k].len() != 0,
        decreases n - e,
    {
        e = e + 1;
    }
    proof {
        lemma_first_empty_at(t, e as int);
    }
    if e == n {
        if n == 8 {
            match parse_h16_list(&toks, 0, 8) {
                Some(v) => {
                    proof {
                        assert(t.subrange(0, 8) =~= t);
                    }
                    Some(assemble_ipv6(&v, &Vec::new()))
                },
                None => {
                    proof {
                        assert(t.subrange(0, 8) =~= t);
                    }
                    None
                },
            }
        } else if n == 7 {
            let front = parse_h16_list(&toks, 0, 6);
            let emb = parse_ipv4(toks[6].as_str());
            proof {
                assert(t.subrange(0, 6) =~= t.take(6));
            }
            match (front, emb) {
                (Some(fv), Some(ip4)) => {
                    let hi: u16 = (ip4.a as u16) * 256 + (ip4.b as u16);
                    let lo: u16 = (ip4.c as u16) * 256 + (ip4.d as u16);
                    let mut gv = fv;
                    gv.push(hi);
                    gv.push(lo);
                    proof {
                        assert(gv@ =~= h16_vals(t.take(6)) + embedded_pair(t[6]));
                    }
                    Some(assemble_ipv6(&gv, &Vec::new()))
                },
                _ => None,
            }
        } else {
            None
        }
    } else {
        let ghost head = t.take(e as int);
        let ghost after = t.skip(e as int + 1);
        let tail_from: usize = if e == 0 {
            if e + 1 < n && toks[e + 1].as_str().is_empty() {
                e + 2
            } else {
                return None;
            }
        } else {
            e + 1
        };
        let ghost tl = t.skip(tail_from as int);
        proof {
            if e == 0 {
                assert(tl =~= after.skip(1));
            } else {
                assert(tl =~= after);
            }
        }
        let tail_len = n - tail_from;
        if tail_len == 1 && toks[tail_from].as_str().is_empty() {
            match parse_h16_list(&toks, 0, e) {
                Some(hv) => {
                    proof {
                        assert(t.subrange(0, e as int) =~= head);
                    }
                    if e <= 7 {
                        Some(assemble_ipv6(&hv, &Vec::new()))
                    } else {
                        None
                    }
                },
                None => {
                    proof {
                        assert(t.subrange(0, e as int) =~= head);
                    }
                    None
                },
            }
        } else if tail_len >= 1 {
            let hv = match parse_h16_list(&toks, 0, e) {
                Some(hv) => hv,
                None => {
                    proof {
                        assert(t.subrange(0, e as int) =~= head);
                    }
                    return None;
                },
            };
            let tv = parse_h16_list(&toks, tail_from, n);
            proof {
                assert(t.subrange(0, e as int) =~= head);
                assert(t.subrange(tail_from as int, n as int) =~= tl);
            }
            match tv {
                Some(tv) if e + tail_len <= 7 => Some(assemble_ipv6(&hv, &tv)),
                _ => {
                    let front = parse_h16_list(&toks, tail_from, n - 1);
                    let emb = parse_ipv4(toks[n - 1].as_str());
                    proof {
                        assert(t.subrange(tail_from as int, n - 1) =~= tl.take(tl.len() - 1));
                        assert(t[n - 1] == tl.last());
                    }
                    match (front, emb) {
                        (Some(fv), Some(ip4)) => {
                            if e + tail_len <= 6 {
                                let hi: u16 = (ip4.a as u16) * 256 + (ip4.b as u16);
                                let lo: u16 = (ip4.c as u16) * 256 + (ip4.d as u16);
                                let mut gv = fv;
                                gv.push(hi);
                                gv.push(lo);
                                proof {
                                    assert(gv@ =~= h16_vals(tl.take(tl.len() - 1))
                                        + embedded_pair(tl.last()));
                                }
                                Some(assemble_ipv6(&hv, &gv))
                            } else {
                                None
                            }
                        },
                        _ => None,
                    }
                },
            }
        } else {
            None
        }
    }
}

/// Checks whether a host string is an IP literal: returns the address for
/// exactly the strings of the IPv4 or IPv6 grammar, and nothing otherwise.
pub fn is_ip_address(host: &str) -> (r: Option<IpAddress>)
    ensures
        r == spec_parse_ip(host@),
{
    match parse_ipv4(host) {
        Some(v4) => Some(IpAddress::V4(v4)),
        None => match parse_ipv6(host) {
            Some(v6) => Some(IpAddress::V6(v6)),
            None => None,
        },
    }
}

/// The decimal digit characters, by value.
pub open spec fn digit_char(d: int) -> char {
    if d == 0 {
        '0'
    } else if d == 1 {
        '1'
    } else if d == 2 {
        '2'
    } else if d == 3 {
        '3'
    } else if d == 4 {
        '4'
    } else if d == 5 {
        '5'
    } else if d == 6 {
        '6'
    } else if d == 7 {
        '7'
    } else if d == 8 {
        '8'
    } else {
        '9'
    }
}

/// The lowercase hexadecimal digit characters, by value.
pub open spec fn hex_digit_char(d: int) -> char {
    if d < 10 {
        digit_char(d)
    } else if d == 10 {
        'a'
    } else if d == 11 {
        'b'
    } else if d == 12 {
        'c'
    } else if d == 13 {
        'd'
    } else if d == 14 {
        'e'
    } else {
        'f'
    }
}

/// Decimal rendering of an octet: one to three digits, no leading zero.
pub open spec fn dec_text(n: int) -> Seq<char> {
    if n < 10 {
        seq![digit_char(n)]
    } else if n < 100 {
        seq![digit_char(n / 10), digit_char(n % 10)]
    } else {
        seq![digit_char(n / 100), digit_char((n / 10) % 10), digit_char(n % 10)]
    }
}

/// Lowercase hexadecimal rendering of a segment: one to four digits, no
/// leading zero.
pub open spec fn hex_text(v: int) -> Seq<char> {
    if v < 16 {
        seq![hex_digit_char(v)]
    } else if v < 256 {
        seq![hex_digit_char(v / 16), hex_digit_char(v % 16)]
    } else if v < 4096 {
        seq![hex_digit_char(v / 256), hex_digit_char((v / 16) % 16), hex_digit_char(v % 16)]
    } else {
        seq![
            hex_digit_char(v / 4096),
            hex_digit_char((v / 256) % 16),
            hex_digit_char((v / 16) % 16),
            hex_digit_char(v % 16),
        ]
    }
}

/// The dotted-decimal text of an IPv4 address.
pub open spec fn spec_ipv4_text(ip: Ipv4Address) -> Seq<char> {
    dec_text(ip.a as int) + seq!['.'] + (dec_text(ip.b as int) + seq!['.'] + (dec_text(
        ip.c as int,
    ) + seq!['.'] + dec_text(ip.d as int)))
}

/// The text of an IPv6 address: all eight groups written out, lowercase,
/// without leading zeros and without `::` compression.
pub open spec fn spec_ipv6_text(ip: Ipv6Address) -> Seq<char> {
    hex_text(ip.s0 as int) + seq![':'] + (hex_text(ip.s1 as int) + seq![':'] + (hex_text(
        ip.s2 as int,
    ) + seq![':'] + (hex_text(ip.s3 as int) + seq![':'] + (hex_text(ip.s4 as int) + seq![':'] + (
    hex_text(ip.s5 as int) + seq![':'] + (hex_text(ip.s6 as int) + seq![':'] + hex_text(
        ip.s7 as int,
    )))))))
}

/// The text of an address of either family.
pub open spec fn spec_ip_text(ip: IpAddress) -> Seq<char> {
    match ip {
        IpAddress::V4(v4) => spec_ipv4_text(v4),
        IpAddress::V6(v6) => spec_ipv6_text(v6),
    }
}

/// The one-character string of a decimal digit.
fn dec_digit_str(d: u8) -> (r: &'static str)
    requires
        d < 10,
    ensures
        r@ == seq![digit_char(d as int)],
{
    let r: &'static str = match d {
        0 => "0",
        1 => "1",
        2 => "2",
        3 => "3",
        4 => "4",
        5 => "5",
        6 => "6",
        7 => "7",
        8 => "8",
        _ => "9",
    };
    proof {
        reveal_strlit("0");
        reveal_strlit("1");
        reveal_strlit("2");
        reveal_strlit("3");
        reveal_strlit("4");
        reveal_strlit("5");
        reveal_strlit("6");
        reveal_strlit("7");
        reveal_strlit("8");
        reveal_strlit("9");
        assert(r@ =~= seq![digit_char(d as int)]);
    }
    r
}

/// The one-character string of a lowercase hexadecimal digit.
fn hex_digit_str(d: u8) -> (r: &'static str)
    requires
        d < 16,
    ensures
        r@ == seq![hex_digit_char(d as int)],
{
    if d < 10 {
        dec_digit_str(d)
    } else {
        let r: &'static str = match d {
            10 => "a",
            11 => "b",
            12 => "c",
            13 => "d",
            14 => "e",
            _ => "f",
        };
        proof {
            reveal_strlit("a");
            reveal_strlit("b");
            reveal_strlit("c");
            reveal_strlit("d");
            reveal_strlit("e");
            reveal_strlit("f");
            assert(r@ =~= seq![hex_digit_char(d as int)]);
        }
        r
    }
}

/// Renders an octet in decimal without leading zeros.
fn u8_to_dec(n: u8) -> (r: String)
    ensures
        r@ == dec_text(n as int),
{
    if n < 10 {
        dec_digit_str(n).to_owned()
    } else if n < 100 {
        String::from_str(dec_digit_str(n / 10)).concat(dec_digit_str(n % 10))
    } else {
        String::from_str(dec_digit_str(n / 100)).concat(dec_digit_str((n / 10) % 10)).concat(
            dec_digit_str(n % 10),
        )
    }
}

/// Renders a segment in lowercase hexadecimal without leading zeros.
fn u16_to_hex(v: u16) -> (r: String)
    ensures
        r@ == hex_text(v as int),
{
    if v < 16 {
        hex_digit_str(v as u8).to_owned()
    } else if v < 256 {
        String::from_str(hex_digit_str((v / 16) as u8)).concat(hex_digit_str((v % 16) as u8))
    } else if v < 4096 {
        String::from_str(hex_digit_str((v / 256) as u8)).concat(
            hex_digit_str(((v / 16) % 16) as u8),
        ).concat(hex_digit_str((v % 16) as u8))
    } else {
        String::from_str(hex_digit_str((v / 4096) as u8)).concat(
            hex_digit_str(((v / 256) % 16) as u8),
        ).concat(hex_digit_str(((v / 16) % 16) as u8)).concat(hex_digit_str((v % 16) as u8))
    }
}

/// Renders an IPv4 address as its dotted-decimal text.
pub fn ipv4_to_string(ip: &Ipv4Address) -> (r: String)
    ensures
        r@ == spec_ipv4_text(*ip),
{
    proof {
        reveal_strlit(".");
        assert("."@ =~= seq!['.']);
    }
    let tail_c = u8_to_dec(ip.c).concat(".").concat(u8_to_dec(ip.d).as_str());
    let tail_b = u8_to_dec(ip.b).concat(".").concat(tail_c.as_str());
    u8_to_dec(ip.a).concat(".").concat(tail_b.as_str())
}

/// Renders an IPv6 address as its full eight-group lowercase text.
pub fn ipv6_to_string(ip: &Ipv6Address) -> (r: String)
    ensures
        r@ == spec_ipv6_text(*ip),
{
    proof {
        reveal_strlit(":");
        assert(":"@ =~= seq![':']);
    }
    let t6 = u16_to_hex(ip.s6).concat(":").concat(u16_to_hex(ip.s7).as_str());
    let t5 = u16_to_hex(ip.s5).concat(":").concat(t6.as_str());
    let t4 = u16_to_hex(ip.s4).concat(":").concat(t5.as_str());
    let t3 = u16_to_hex(ip.s3).concat(":").concat(t4.as_str());
    let t2 = u16_to_hex(ip.s2).concat(":").concat(t3.as_str());
    let t1 = u16_to_hex(ip.s1).concat(":").concat(t2.as_str());
    u16_to_hex(ip.s0).concat(":").concat(t1.as_str())
}

/// Renders an address of either family as text.
pub fn ip_to_string(ip: &IpAddress) -> (r: String)
    ensures
        r@ == spec_ip_text(*ip),
{
    match ip {
        IpAddress::V4(v4) => ipv4_to_string(v4),
        IpAddress::V6(v6) => ipv6_to_string(v6),
    }
}

/// A string without the separator splits as a single token.
pub proof fn lemma_split_no_sep(tok: Seq<char>, sep: char)
    requires
        forall|k: int| 0 <= k < tok.len() ==> tok[k] != sep,
    ensures
        split_on(tok, sep) == seq![tok],
{
    lemma_split_head(tok, sep, tok.len() as int);
}

/// Peeling one separator-terminated token off the front of a split.
pub proof fn lemma_split_sep_token(tok: Seq<char>, sep: char, rest: Seq<char>)
    requires
        forall|k: int| 0 <= k < tok.len() ==> tok[k] != sep,
    ensures
        split_on(tok + seq![sep] + rest, sep) == seq![tok] + split_on(rest, sep),
{
    let s = tok + seq![sep] + rest;
    assert(forall|k: int| 0 <= k < tok.len() ==> s[k] == tok[k]);
    assert(s[tok.len() as int] == sep);
    lemma_split_head(s, sep, tok.len() as int);
    assert(s.take(tok.len() as int) =~= tok);
    assert(s.skip(tok.len() as int + 1) =~= rest);
}

/// The decimal rendering of an octet is one to three decimal digits.
pub proof fn lemma_dec_text_digits(n: int)
    requires
        0 <= n <= 255,
    ensures
        1 <= dec_text(n).len() <= 3,
        forall|k: int| 0 <= k < dec_text(n).len() ==> is_dec_digit(#[trigger] dec_text(n)[k]),
{
}

/// The hexadecimal rendering of a segment is one to four hexadecimal digits.
pub proof fn lemma_hex_text_digits(v: int)
    requires
        0 <= v <= 0xffff,
    ensures
        1 <= hex_text(v).len() <= 4,
        forall|k: int| 0 <= k < hex_text(v).len() ==> is_hex_digit(#[trigger] hex_text(v)[k]),
{
}

/// The decimal rendering of an octet parses back to that octet.
pub proof fn lemma_dec_text_round_trip(n: u8)
    ensures
        spec_parse_dec_octet(dec_text(n as int)) == Some(n),
{
}

/// Each hexadecimal digit character carries its own value.
pub proof fn lemma_hex_digit_char_val(d: int)
    requires
        0 <= d < 16,
    ensures
        is_hex_digit(hex_digit_char(d)),
        hex_val(hex_digit_char(d)) == d,
{
}

/// The hexadecimal rendering of a segment parses back to that segment.
pub proof fn lemma_hex_text_round_trip(v: u16)
    ensures
        spec_parse_h16(hex_text(v as int)) == Some(v),
{
    let n = v as int;
    if n < 16 {
        lemma_hex_digit_char_val(n);
    } else if n < 256 {
        lemma_fundamental_div_mod(n, 16);
        lemma_hex_digit_char_val(n / 16);
        lemma_hex_digit_char_val(n % 16);
        assert(n == (n / 16) * 16 + n % 16);
    } else if n < 4096 {
        lemma_fundamental_div_mod(n, 16);
        lemma_fundamental_div_mod(n / 16, 16);
        lemma_div_denominator(n, 16, 16);
        assert((n / 16) / 16 == n / 256);
        lemma_hex_digit_char_val(n / 256);
        lemma_hex_digit_char_val((n / 16) % 16);
        lemma_hex_digit_char_val(n % 16);
        assert(n == (n / 256) * 256 + ((n / 16) % 16) * 16 + n % 16);
    } else {
        lemma_fundamental_div_mod(n, 16);
        lemma_fundamental_div_mod(n / 16, 16);
        lemma_fundamental_div_mod(n / 256, 16);
        lemma_div_denominator(n, 16, 16);
        lemma_div_denominator(n, 256, 16);
        assert((n / 16) / 16 == n / 256);
        assert((n / 256) / 16 == n / 4096);
        lemma_hex_digit_char_val(n / 4096);
        lemma_hex_digit_char_val((n / 256) % 16);
        lemma_hex_digit_char_val((n / 16) % 16);
        lemma_hex_digit_char_val(n % 16);
        assert(n == (n / 4096) * 4096 + ((n / 256) % 16) * 256 + ((n / 16) % 16) * 16 + n % 16);
    }
}

/// Law: parsing the dotted-decimal text of any IPv4 address yields exactly
/// that address.
#[verifier::rlimit(60)]
pub proof fn lemma_ipv4_text_round_trip(ip: Ipv4Address)
    ensures
        spec_parse_ipv4(spec_ipv4_text(ip)) == Some(ip),
{
    let ta = dec_text(ip.a as int);
    let tb = dec_text(ip.b as int);
    let tc = dec_text(ip.c as int);
    let td = dec_text(ip.d as int);
    lemma_dec_text_digits(ip.a as int);
    lemma_dec_text_digits(ip.b as int);
    lemma_dec_text_digits(ip.c as int);
    lemma_dec_text_digits(ip.d as int);
    let s = spec_ipv4_text(ip);
    assert(s == ta + seq!['.'] + (tb + seq!['.'] + (tc + seq!['.'] + td)));
    lemma_split_sep_token(ta, '.', tb + seq!['.'] + (tc + seq!['.'] + td));
    lemma_split_sep_token(tb, '.', tc + seq!['.'] + td);
    lemma_split_sep_token(tc, '.', td);
    lemma_split_no_sep(td, '.');
    let t = split_on(s, '.');
    assert(t =~= seq![ta, tb, tc, td]);
    lemma_dec_text_round_trip(ip.a);
    lemma_dec_text_round_trip(ip.b);
    lemma_dec_text_round_trip(ip.c);
    lemma_dec_text_round_trip(ip.d);
}

/// The text of the last four groups of an IPv6 address splits on colons
/// into exactly those rendered groups.
#[verifier::rlimit(100)]
pub proof fn lemma_ipv6_text_split_tail(ip: Ipv6Address)
    ensures
        split_on(
            hex_text(ip.s4 as int) + seq![':'] + (hex_text(ip.s5 as int) + seq![':'] + (hex_text(
                ip.s6 as int,
            ) + seq![':'] + hex_text(ip.s7 as int))),
            ':',
        ) == seq![
            hex_text(ip.s4 as int),
            hex_text(ip.s5 as int),
            hex_text(ip.s6 as int),
            hex_text(ip.s7 as int),
        ],
{
    let t4 = hex_text(ip.s4 as int);
    let t5 = hex_text(ip.s5 as int);
    let t6 = hex_text(ip.s6 as int);
    let t7 = hex_text(ip.s7 as int);
    lemma_hex_text_digits(ip.s4 as int);
    lemma_hex_text_digits(ip.s5 as int);
    lemma_hex_text_digits(ip.s6 as int);
    lemma_hex_text_digits(ip.s7 as int);
    let r7 = t7;
    let r6 = t6 + seq![':'] + r7;
    let r5 = t5 + seq![':'] + r6;
    lemma_split_no_sep(r7, ':');
    lemma_split_sep_token(t6, ':', r7);
    assert(split_on(r6, ':') =~= seq![t6, t7]);
    lemma_split_sep_token(t5, ':', r6);
    assert(split_on(r5, ':') =~= seq![t5, t6, t7]);
    lemma_split_sep_token(t4, ':', r5);
    assert(split_on(t4 + seq![':'] + r5, ':') =~= seq![t4, t5, t6, t7]);
}

/// The full text of an IPv6 address splits on colons into exactly its
/// eight rendered groups.
#[verifier::rlimit(100)]
pub proof fn lemma_ipv6_text_split(ip: Ipv6Address)
    ensures
        split_on(spec_ipv6_text(ip), ':') == seq![
            hex_text(ip.s0 as int),
            hex_text(ip.s1 as int),
            hex_text(ip.s2 as int),
            hex_text(ip.s3 as int),
            hex_text(ip.s4 as int),
            hex_text(ip.s5 as int),
            hex_text(ip.s6 as int),
            hex_text(ip.s7 as int),
        ],
{
    let t0 = hex_text(ip.s0 as int);
    let t1 = hex_text(ip.s1 as int);
    let t2 = hex_text(ip.s2 as int);
    let t3 = hex_text(ip.s3 as int);
    let t4 = hex_text(ip.s4 as int);
    let t5 = hex_text(ip.s5 as int);
    let t6 = hex_text(ip.s6 as int);
    let t7 = hex_text(ip.s7 as int);
    lemma_hex_text_digits(ip.s0 as int);
    lemma_hex_text_digits(ip.s1 as int);
    lemma_hex_text_digits(ip.s2 as int);
    lemma_hex_text_digits(ip.s3 as int);
    let r4 = t4 + seq![':'] + (t5 + seq![':'] + (t6 + seq![':'] + t7));
    let r3 = t3 + seq![':'] + r4;
    let r2 = t2 + seq![':'] + r3;
    let r1 = t1 + seq![':'] + r2;
    let r0 = t0 + seq![':'] + r1;
    lemma_ipv6_text_split_tail(ip);
    assert(split_on(r4, ':') == seq![t4, t5, t6, t7]);
    lemma_split_sep_token(t3, ':', r4);
    assert(split_on(r3, ':') =~= seq![t3, t4, t5, t6, t7]);
    lemma_split_sep_token(t2, ':', r3);
    assert(split_on(r2, ':') =~= seq![t2, t3, t4, t5, t6, t7]);
    lemma_split_sep_token(t1, ':', r2);
    assert(split_on(r1, ':') =~= seq![t1, t2, t3, t4, t5, t6, t7]);
    lemma_split_sep_token(t0, ':', r1);
    assert(split_on(r0, ':') =~= seq![t0, t1, t2, t3, t4, t5, t6, t7]);
    assert(spec_ipv6_text(ip) == r0);
}

/// Law: parsing the full eight-group text of any IPv6 address yields
/// exactly that address.
#[verifier::rlimit(60)]
pub proof fn lemma_ipv6_text_round_trip(ip: Ipv6Address)
    ensures
        spec_parse_ipv6(spec_ipv6_text(ip)) == Some(ip),
{
    let t0 = hex_text(ip.s0 as int);
    let t1 = hex_text(ip.s1 as int);
    let t2 = hex_text(ip.s2 as int);
    let t3 = hex_text(ip.s3 as int);
    let t4 = hex_text(ip.s4 as int);
    let t5 = hex_text(ip.s5 as int);
    let t6 = hex_text(ip.s6 as int);
    let t7 = hex_text(ip.s7 as int);
    lemma_hex_text_digits(ip.s0 as int);
    lemma_hex_text_digits(ip.s1 as int);
    lemma_hex_text_digits(ip.s2 as int);
    lemma_hex_text_digits(ip.s3 as int);
    lemma_hex_text_digits(ip.s4 as int);
    lemma_hex_text_digits(ip.s5 as int);
    lemma_hex_text_digits(ip.s6 as int);
    lemma_hex_text_digits(ip.s7 as int);
    let s = spec_ipv6_text(ip);
    lemma_ipv6_text_split(ip);
    let t = split_on(s, ':');
    assert(t =~= seq![t0, t1, t2, t3, t4, t5, t6, t7]);
    lemma_first_empty_at(t, 8);
    lemma_hex_text_round_trip(ip.s0);
    lemma_hex_text_round_trip(ip.s1);
    lemma_hex_text_round_trip(ip.s2);
    lemma_hex_text_round_trip(ip.s3);
    lemma_hex_text_round_trip(ip.s4);
    lemma_hex_text_round_trip(ip.s5);
    lemma_hex_text_round_trip(ip.s6);
    lemma_hex_text_round_trip(ip.s7);
    assert(all_h16(t));
    let vals = h16_vals(t);
    assert(vals =~= ip.segments());
    let gs = vals + zero_seq(0) + Seq::<u16>::empty();
    assert(gs =~= ip.segments());
    assert(spec_parse_ipv6(s) == Some(ipv6_from_groups(vals, Seq::empty())));
    assert(ipv6_from_groups(vals, Seq::empty()) == ip);
}

/// Law: rendering any address and resolving the text as a literal yields
/// exactly that address — the literal fast path is lossless and needs no
/// lookup.
pub proof fn lemma_ip_text_round_trip(ip: IpAddress)
    ensures
        spec_parse_ip(spec_ip_text(ip)) == Some(ip),
{
    match ip {
        IpAddress::V4(v4) => {
            lemma_ipv4_text_round_trip(v4);
        },
        IpAddress::V6(v6) => {
            lemma_ipv6_text_round_trip(v6);
            let s = spec_ipv6_text(v6);
            lemma_hex_text_digits(v6.s0 as int);
            lemma_hex_text_digits(v6.s1 as int);
            lemma_hex_text_digits(v6.s2 as int);
            lemma_hex_text_digits(v6.s3 as int);
            lemma_hex_text_digits(v6.s4 as int);
            lemma_hex_text_digits(v6.s5 as int);
            lemma_hex_text_digits(v6.s6 as int);
            lemma_hex_text_digits(v6.s7 as int);
            assert(forall|k: int| 0 <= k < s.len() ==> s[k] != '.');
            lemma_split_no_sep(s, '.');
            assert(spec_parse_ipv4(s) is None);
        },
    }
}

} // verus!

