//! IP addresses as plain values, with a verified text codec.
//!
//! An address is held as its integer components. The codec reads and writes
//! the byte form used on the wire and in cache files: dotted decimal for
//! IPv4 (`203.0.113.9`) and colon-separated hexadecimal groups for IPv6.
//! The formatter always emits the full eight-group form
//! (`2001:db8:0:0:0:0:0:1`); the parser reads that form back exactly, and
//! also accepts one `::` standing for a run of zero groups.

use vstd::prelude::*;

verus! {

/// Byte value of `'.'`.
pub const DOT: u8 = 46;

/// Byte value of `':'`.
pub const COLON: u8 = 58;

/// An IP address held as plain integer components: either a dotted-quad
/// IPv4 address or an eight-group IPv6 address.
#[derive(Clone, Copy, Debug, PartialEq, Eq, Structural)]
pub enum IpAddr {
    V4(u8, u8, u8, u8),
    V6(u16, u16, u16, u16, u16, u16, u16, u16),
}

// ---------------------------------------------------------------------------
// Byte classes and digit values
// ---------------------------------------------------------------------------

/// `b` is an ASCII decimal digit.
pub open spec fn is_digit(b: u8) -> bool {
    48 <= b <= 57
}

/// Numeric value of a decimal digit byte.
pub open spec fn digit_val(b: u8) -> int {
    b - 48
}

/// `b` is an ASCII hexadecimal digit, either case.
pub open spec fn is_hex_digit(b: u8) -> bool {
    (48 <= b <= 57) || (97 <= b <= 102) || (65 <= b <= 70)
}

/// Numeric value of a hexadecimal digit byte.
pub open spec fn hex_digit_val(b: u8) -> int {
    if 48 <= b <= 57 {
        b - 48
    } else if 97 <= b <= 102 {
        b - 87
    } else {
        b - 55
    }
}

/// The digit byte for a value below ten.
pub open spec fn digit_of(v: int) -> u8 {
    (48 + v) as u8
}

/// The lowercase hexadecimal digit byte for a value below sixteen.
pub open spec fn hex_digit_of(v: int) -> u8 {
    if v < 10 {
        (48 + v) as u8
    } else {
        (87 + v) as u8
    }
}

/// Every byte of `s` is a decimal digit.
pub open spec fn all_digits(s: Seq<u8>) -> bool {
    forall|i: int| 0 <= i < s.len() ==> is_digit(#[trigger] s[i])
}

/// Every byte of `s` is a hexadecimal digit.
pub open spec fn all_hex_digits(s: Seq<u8>) -> bool {
    forall|i: int| 0 <= i < s.len() ==> is_hex_digit(#[trigger] s[i])
}

/// Value of a decimal digit string, most significant digit first.
pub open spec fn dec_val(s: Seq<u8>) -> int
    decreases s.len(),
{
    if s.len() == 0 {
        0
    } else {
        dec_val(s.drop_last()) * 10 + digit_val(s.last())
    }
}

/// Value of a hexadecimal digit string, most significant digit first.
pub open spec fn hex_val(s: Seq<u8>) -> int
    decreases s.len(),
{
    if s.len() == 0 {
        0
    } else {
        hex_val(s.drop_last()) * 16 + hex_digit_val(s.last())
    }
}

// ---------------------------------------------------------------------------
// Spec-level formatting
// ---------------------------------------------------------------------------

/// Decimal text of a byte value: one to three digits, no leading zero.
pub open spec fn spec_dec_u8(n: u8) -> Seq<u8> {
    if n < 10 {
        seq![digit_of(n as int)]
    } else if n < 100 {
        seq![digit_of(n as int / 10), digit_of(n as int % 10)]
    } else {
        seq![digit_of(n as int / 100), digit_of((n as int / 10) % 10), digit_of(n as int % 10)]
    }
}

/// Lowercase hexadecimal text of a group value: one to four digits, no
/// leading zero.
pub open spec fn spec_hex_u16(n: u16) -> Seq<u8> {
    if n < 16 {
        seq![hex_digit_of(n as int)]
    } else if n < 256 {
        seq![hex_digit_of(n as int / 16), hex_digit_of(n as int % 16)]
    } else if n < 4096 {
        seq![
            hex_digit_of(n as int / 256),
            hex_digit_of((n as int / 16) % 16),
            hex_digit_of(n as int % 16),
        ]
    } else {
        seq![
            hex_digit_of(n as int / 4096),
            hex_digit_of((n as int / 256) % 16),
            hex_digit_of((n as int / 16) % 16),
            hex_digit_of(n as int % 16),
        ]
    }
}

/// Canonical text of an address: dotted decimal for IPv4, eight full
/// colon-separated lowercase hexadecimal groups for IPv6.
pub open spec fn spec_format_ip(ip: IpAddr) -> Seq<u8> {
    match ip {
        IpAddr::V4(a, b, c, d) => spec_dec_u8(a) + seq![DOT] + spec_dec_u8(b) + seq![DOT]
            + spec_dec_u8(c) + seq![DOT] + spec_dec_u8(d),
        IpAddr::V6(g0, g1, g2, g3, g4, g5, g6, g7) => spec_hex_u16(g0) + seq![COLON]
            + spec_hex_u16(g1) + seq![COLON] + spec_hex_u16(g2) + seq![COLON] + spec_hex_u16(g3)
            + seq![COLON] + spec_hex_u16(g4) + seq![COLON] + spec_hex_u16(g5) + seq![COLON]
            + spec_hex_u16(g6) + seq![COLON] + spec_hex_u16(g7),
    }
}

// ---------------------------------------------------------------------------
// Executable formatting
// ---------------------------------------------------------------------------

/// Appends the decimal text of `n` to `out`.
pub fn push_dec_u8(out: &mut Vec<u8>, n: u8)
    ensures
        final(out)@ == old(out)@ + spec_dec_u8(n),
{
    if n < 10 {
        out.push(48 + n);
        assert(out@ =~= old(out)@ + spec_dec_u8(n));
    } else if n < 100 {
        out.push(48 + n / 10);
        out.push(48 + n % 10);
        assert(out@ =~= old(out)@ + spec_dec_u8(n));
    } else {
        out.push(48 + n / 100);
        out.push(48 + (n / 10) % 10);
        out.push(48 + n % 10);
        assert(out@ =~= old(out)@ + spec_dec_u8(n));
    }
}

/// The lowercase hexadecimal digit byte for `v`, which must be below sixteen.
fn hex_digit_byte(v: u16) -> (r: u8)
    requires
        v < 16,
    ensures
        r == hex_digit_of(v as int),
{
    if v < 10 {
        48 + v as u8
    } else {
        87 + v as u8
    }
}

/// Appends the lowercase hexadecimal text of `n` to `out`.
pub fn push_hex_u16(out: &mut Vec<u8>, n: u16)
    ensures
        final(out)@ == old(out)@ + spec_hex_u16(n),
{
    if n < 16 {
        out.push(hex_digit_byte(n));
        assert(out@ =~= old(out)@ + spec_hex_u16(n));
    } else if n < 256 {
        out.push(hex_digit_byte(n / 16));
        out.push(hex_digit_byte(n % 16));
        assert(out@ =~= old(out)@ + spec_hex_u16(n));
    } else if n < 4096 {
        out.push(hex_digit_byte(n / 256));
        out.push(hex_digit_byte((n / 16) % 16));
        out.push(hex_digit_byte(n % 16));
        assert(out@ =~= old(out)@ + spec_hex_u16(n));
    } else {
        out.push(hex_digit_byte(n / 4096));
        out.push(hex_digit_byte((n / 256) % 16));
        out.push(hex_digit_byte((n / 16) % 16));
        out.push(hex_digit_byte(n % 16));
        assert(out@ =~= old(out)@ + spec_hex_u16(n));
    }
}

/// Appends the canonical text of `ip` to `out`.
#[verifier::rlimit(60)]
pub fn push_ip(out: &mut Vec<u8>, ip: &IpAddr)
    ensures
        final(out)@ == old(out)@ + spec_format_ip(*ip),
{
    match ip {
        IpAddr::V4(a, b, c, d) => {
            push_dec_u8(out, *a);
            out.push(DOT);
            push_dec_u8(out, *b);
            out.push(DOT);
            push_dec_u8(out, *c);
            out.push(DOT);
            push_dec_u8(out, *d);
            assert(out@ =~= old(out)@ + spec_format_ip(*ip));
        },
        IpAddr::V6(g0, g1, g2, g3, g4, g5, g6, g7) => {
            push_hex_u16(out, *g0);
            out.push(COLON);
            push_hex_u16(out, *g1);
            out.push(COLON);
            push_hex_u16(out, *g2);
            out.push(COLON);
            push_hex_u16(out, *g3);
            out.push(COLON);
            push_hex_u16(out, *g4);
            out.push(COLON);
            push_hex_u16(out, *g5);
            out.push(COLON);
            push_hex_u16(out, *g6);
            out.push(COLON);
            push_hex_u16(out, *g7);
            assert(out@ =~= old(out)@ + spec_format_ip(*ip));
        },
    }
}

/// Canonical text of an address.
pub fn format_ip(ip: &IpAddr) -> (r: Vec<u8>)
    ensures
        r@ == spec_format_ip(*ip),
{
    let mut out: Vec<u8> = Vec::new();
    push_ip(&mut out, ip);
    out
}

// ---------------------------------------------------------------------------
// Splitting on a separator byte
// ---------------------------------------------------------------------------

/// The pieces of `s` between occurrences of `sep`, in order. There is
/// always at least one piece; splitting the empty string gives one empty
/// piece, and adjacent separators give empty pieces between them.
pub open spec fn spec_split(s: Seq<u8>, sep: u8) -> Seq<Seq<u8>>
    decreases s.len(),
{
    if s.len() == 0 {
        seq![Seq::<u8>::empty()]
    } else if s[0] == sep {
        seq![Seq::<u8>::empty()] + spec_split(s.skip(1), sep)
    } else {
        let r = spec_split(s.skip(1), sep);
        r.update(0, seq![s[0]] + r[0])
    }
}

pub proof fn lemma_split_len(s: Seq<u8>, sep: u8)
    ensures
        spec_split(s, sep).len() >= 1,
    decreases s.len(),
{
    if s.len() != 0 {
        lemma_split_len(s.skip(1), sep);
    }
}

/// A string with no separator splits into exactly itself.
pub proof fn lemma_split_no_sep(s: Seq<u8>, sep: u8)
    requires
        !s.contains(sep),
    ensures
        spec_split(s, sep) == seq![s],
    decreases s.len(),
{
    if s.len() == 0 {
        assert(spec_split(s, sep) =~~= seq![s]);
    } else {
        assert(s[0] != sep);
        assert(!s.skip(1).contains(sep)) by {
            if s.skip(1).contains(sep) {
                let i = choose|i: int| 0 <= i < s.skip(1).len() && s.skip(1)[i] == sep;
                assert(s[i + 1] == sep);
            }
        }
        lemma_split_no_sep(s.skip(1), sep);
        lemma_split_len(s.skip(1), sep);
        assert(spec_split(s, sep) =~~= seq![s]);
    }
}

/// Splitting at the first separator: a separator-free prefix becomes the
/// first piece, and the remainder splits on its own.
pub proof fn lemma_split_at_sep(a: Seq<u8>, sep: u8, rest: Seq<u8>)
    requires
        !a.contains(sep),
    ensures
        spec_split(a + seq![sep] + rest, sep) == seq![a] + spec_split(rest, sep),
    decreases a.len(),
{
    let s = a + seq![sep] + rest;
    if a.len() == 0 {
        assert(s[0] == sep);
        assert(s.skip(1) =~= rest);
        assert(spec_split(s, sep) =~~= seq![a] + spec_split(rest, sep));
    } else {
        assert(s[0] == a[0]);
        assert(a[0] != sep) by {
            if a[0] == sep {
                assert(a.contains(sep));
            }
        }
        assert(!a.skip(1).contains(sep)) by {
            if a.skip(1).contains(sep) {
                let i = choose|i: int| 0 <= i < a.skip(1).len() && a.skip(1)[i] == sep;
                assert(a[i + 1] == sep);
            }
        }
        assert(s.skip(1) =~= a.skip(1) + seq![sep] + rest);
        lemma_split_at_sep(a.skip(1), sep, rest);
        lemma_split_len(rest, sep);
        assert(spec_split(s, sep) =~~= seq![a] + spec_split(rest, sep));
    }
}

/// The views of a vector of byte vectors.
pub open spec fn views_of(v: Seq<Vec<u8>>) -> Seq<Seq<u8>> {
    Seq::new(v.len(), |i: int| v[i]@)
}

/// A split where the first piece still grows: used to carry the split of a
/// partially scanned string forward.
pub open spec fn join_front(pre: Seq<u8>, groups: Seq<Seq<u8>>) -> Seq<Seq<u8>> {
    groups.update(0, pre + groups[0])
}

/// Splits `s` on `sep` into its pieces, as `spec_split` describes.
pub fn split_bytes(s: &[u8], sep: u8) -> (r: Vec<Vec<u8>>)
    ensures
        views_of(r@) == spec_split(s@, sep),
{
    let ghost whole = spec_split(s@, sep);
    let mut done: Vec<Vec<u8>> = Vec::new();
    let mut cur: Vec<u8> = Vec::new();
    let mut i: usize = 0;
    proof {
        lemma_split_len(s@, sep);
        assert(s@.skip(0) =~= s@);
        assert(whole =~~= views_of(done@) + join_front(cur@, spec_split(s@.skip(0), sep)));
    }
    while i < s.len()
        invariant
            i <= s@.len(),
            whole == spec_split(s@, sep),
            whole == views_of(done@) + join_front(cur@, spec_split(s@.skip(i as int), sep)),
        decreases s@.len() - i,
    {
        let ghost rest = s@.skip(i as int);
        let ghost rest1 = s@.skip(i as int + 1);
        proof {
            assert(rest.len() == s@.len() - i);
            assert(rest[0] == s@[i as int]);
            assert(rest.skip(1) =~= rest1);
            lemma_split_len(rest1, sep);
        }
        let b = s[i];
        if b == sep {
            proof {
                assert(spec_split(rest, sep) == seq![Seq::<u8>::empty()] + spec_split(rest1, sep));
                assert(join_front(cur@, spec_split(rest, sep)) =~~= seq![cur@] + join_front(
                    Seq::<u8>::empty(),
                    spec_split(rest1, sep),
                ));
            }
            let ghost cur_view = cur@;
            done.push(cur);
            cur = Vec::new();
            proof {
                assert(views_of(done@) =~~= views_of(done@.drop_last()) + seq![cur_view]);
                assert(whole =~~= views_of(done@) + join_front(cur@, spec_split(rest1, sep)));
            }
        } else {
            let ghost cur_view = cur@;
            proof {
                let r1 = spec_split(rest1, sep);
                assert(spec_split(rest, sep) == r1.update(0, seq![rest[0]] + r1[0]));
                assert(join_front(cur_view, spec_split(rest, sep)) =~~= join_front(
                    cur_view + seq![b],
                    r1,
                ));
            }
            cur.push(b);
            proof {
                assert(cur@ =~= cur_view + seq![b]);
            }
        }
        i += 1;
    }
    proof {
        assert(s@.skip(s@.len() as int).len() == 0);
        assert(join_front(cur@, spec_split(s@.skip(i as int), sep)) =~~= seq![cur@]);
    }
    let ghost cur_view = cur@;
    done.push(cur);
    proof {
        assert(views_of(done@) =~~= views_of(done@.drop_last()) + seq![cur_view]);
        assert(views_of(done@) =~~= whole);
    }
    done
}

/// Whether `x` occurs in `s`.
pub fn contains_byte(s: &[u8], x: u8) -> (r: bool)
    ensures
        r == s@.contains(x),
{
    let mut i: usize = 0;
    while i < s.len()
        invariant
            i <= s@.len(),
            forall|j: int| 0 <= j < i ==> s@[j] != x,
        decreases s@.len() - i,
    {
        if s[i] == x {
            assert(s@.contains(x));
            return true;
        }
        i += 1;
    }
    proof {
        if s@.contains(x) {
            let j = choose|j: int| 0 <= j < s@.len() && s@[j] == x;
            assert(s@[j] != x);
        }
    }
    false
}

// ---------------------------------------------------------------------------
// Spec-level parsing
// ---------------------------------------------------------------------------

/// A valid dotted-decimal octet: one to three digits, no leading zero,
/// value at most 255.
pub open spec fn spec_parse_dec_group(s: Seq<u8>) -> Option<u8> {
    if 1 <= s.len() <= 3 && all_digits(s) && (s.len() == 1 || s[0] != 48) && dec_val(s) <= 255 {
        Some(dec_val(s) as u8)
    } else {
        None
    }
}

/// A valid IPv6 group: one to four hexadecimal digits, either case.
pub open spec fn spec_parse_hex_group(s: Seq<u8>) -> Option<u16> {
    if 1 <= s.len() <= 4 && all_hex_digits(s) {
        Some(hex_val(s) as u16)
    } else {
        None
    }
}

/// Dotted-decimal IPv4 text: exactly four valid octets separated by dots.
pub open spec fn spec_parse_ipv4(s: Seq<u8>) -> Option<IpAddr> {
    let gs = spec_split(s, DOT);
    if gs.len() != 4 {
        None
    } else {
        match (
            spec_parse_dec_group(gs[0]),
            spec_parse_dec_group(gs[1]),
            spec_parse_dec_group(gs[2]),
            spec_parse_dec_group(gs[3]),
        ) {
            (Some(a), Some(b), Some(c), Some(d)) => Some(IpAddr::V4(a, b, c, d)),
            _ => None,
        }
    }
}

/// How many pieces are empty. An empty piece marks a `::` in the text.
pub open spec fn empty_count(gs: Seq<Seq<u8>>) -> int
    decreases gs.len(),
{
    if gs.len() == 0 {
        0
    } else {
        empty_count(gs.drop_last()) + if gs.last().len() == 0 {
            1int
        } else {
            0int
        }
    }
}

/// Index of the first empty piece, or -1 if there is none.
pub open spec fn first_empty(gs: Seq<Seq<u8>>) -> int
    decreases gs.len(),
{
    if gs.len() == 0 {
        -1
    } else if gs[0].len() == 0 {
        0
    } else {
        let r = first_empty(gs.skip(1));
        if r == -1 {
            -1
        } else {
            r + 1
        }
    }
}

/// Where one `::` stands in colon-split pieces: the pieces before it and
/// after it. A lone `::` splits as three empty pieces; a leading or
/// trailing `::` leaves two adjacent empty pieces at that end; an inner
/// one leaves a single empty piece between non-empty ones. Anything else
/// is not a compressed address.
pub open spec fn compressed_parts(gs: Seq<Seq<u8>>) -> Option<(Seq<Seq<u8>>, Seq<Seq<u8>>)> {
    let n = gs.len();
    if n == 3 && empty_count(gs) == 3 {
        Some((Seq::empty(), Seq::empty()))
    } else if n >= 3 && empty_count(gs) == 2 && gs[0].len() == 0 && gs[1].len() == 0 {
        Some((Seq::empty(), gs.skip(2)))
    } else if n >= 3 && empty_count(gs) == 2 && gs[n - 1].len() == 0 && gs[n - 2].len() == 0 {
        Some((gs.take(n - 2), Seq::empty()))
    } else if n >= 3 && empty_count(gs) == 1 && 0 < first_empty(gs) < n - 1 {
        Some((gs.take(first_empty(gs)), gs.skip(first_empty(gs) + 1)))
    } else {
        None
    }
}

/// The group values of a list of pieces, when every piece is a valid
/// group.
pub open spec fn parse_groups(gs: Seq<Seq<u8>>) -> Option<Seq<u16>>
    decreases gs.len(),
{
    if gs.len() == 0 {
        Some(Seq::empty())
    } else {
        match (parse_groups(gs.drop_last()), spec_parse_hex_group(gs.last())) {
            (Some(vs), Some(v)) => Some(vs.push(v)),
            _ => None,
        }
    }
}

/// The address with the given eight group values.
pub open spec fn v6_from(vals: Seq<u16>) -> IpAddr {
    IpAddr::V6(vals[0], vals[1], vals[2], vals[3], vals[4], vals[5], vals[6], vals[7])
}

/// IPv6 text: eight valid colon-separated groups, or a compressed form
/// whose one `::` stands for the missing all-zero groups, at least one.
pub open spec fn spec_parse_ipv6(s: Seq<u8>) -> Option<IpAddr> {
    let gs = spec_split(s, COLON);
    if empty_count(gs) == 0 {
        if gs.len() == 8 {
            match parse_groups(gs) {
                Some(vals) => Some(v6_from(vals)),
                None => None,
            }
        } else {
            None
        }
    } else {
        match compressed_parts(gs) {
            Some((head, tail)) => if head.len() + tail.len() <= 7 {
                match (parse_groups(head), parse_groups(tail)) {
                    (Some(hv), Some(tv)) => Some(
                        v6_from(
                            hv + Seq::new((8 - head.len() - tail.len()) as nat, |i: int| 0u16)
                                + tv,
                        ),
                    ),
                    _ => None,
                }
            } else {
                None
            },
            None => None,
        }
    }
}

/// Text with a colon is read as IPv6, anything else as IPv4.
pub open spec fn spec_parse_ip(s: Seq<u8>) -> Option<IpAddr> {
    if s.contains(COLON) {
        spec_parse_ipv6(s)
    } else {
        spec_parse_ipv4(s)
    }
}

// ---------------------------------------------------------------------------
// Digit-string values, unfolded for short strings
// ---------------------------------------------------------------------------

pub proof fn lemma_dec_val_short(s: Seq<u8>)
    requires
        1 <= s.len() <= 3,
    ensures
        s.len() == 1 ==> dec_val(s) == digit_val(s[0]),
        s.len() == 2 ==> dec_val(s) == digit_val(s[0]) * 10 + digit_val(s[1]),
        s.len() == 3 ==> dec_val(s) == (digit_val(s[0]) * 10 + digit_val(s[1])) * 10 + digit_val(
            s[2],
        ),
    decreases s.len(),
{
    if s.len() == 1 {
        assert(s.drop_last() =~= Seq::<u8>::empty());
        assert(dec_val(Seq::<u8>::empty()) == 0);
    } else {
        lemma_dec_val_short(s.drop_last());
    }
}

pub proof fn lemma_hex_val_short(s: Seq<u8>)
    requires
        1 <= s.len() <= 4,
    ensures
        s.len() == 1 ==> hex_val(s) == hex_digit_val(s[0]),
        s.len() == 2 ==> hex_val(s) == hex_digit_val(s[0]) * 16 + hex_digit_val(s[1]),
        s.len() == 3 ==> hex_val(s) == (hex_digit_val(s[0]) * 16 + hex_digit_val(s[1])) * 16
            + hex_digit_val(s[2]),
        s.len() == 4 ==> hex_val(s) == ((hex_digit_val(s[0]) * 16 + hex_digit_val(s[1])) * 16
            + hex_digit_val(s[2])) * 16 + hex_digit_val(s[3]),
    decreases s.len(),
{
    if s.len() == 1 {
        assert(s.drop_last() =~= Seq::<u8>::empty());
        assert(hex_val(Seq::<u8>::empty()) == 0);
    } else {
        lemma_hex_val_short(s.drop_last());
    }
}

// ---------------------------------------------------------------------------
// Executable parsing
// ---------------------------------------------------------------------------

/// Reads one dotted-decimal octet.
pub fn parse_dec_group(g: &[u8]) -> (r: Option<u8>)
    ensures
        r == spec_parse_dec_group(g@),
{
    let n = g.len();
    if n == 0 || n > 3 {
        return None;
    }
    let mut i: usize = 0;
    while i < n
        invariant
            i <= n,
            n == g@.len(),
            forall|j: int| 0 <= j < i ==> is_digit(#[trigger] g@[j]),
        decreases n - i,
    {
        let b = g[i];
        if b < 48 || b > 57 {
            assert(!all_digits(g@));
            return None;
        }
        i += 1;
    }
    assert(all_digits(g@));
    if n > 1 && g[0] == 48 {
        return None;
    }
    proof {
        lemma_dec_val_short(g@);
    }
    let v: u32 = if n == 1 {
        (g[0] - 48) as u32
    } else if n == 2 {
        (g[0] - 48) as u32 * 10 + (g[1] - 48) as u32
    } else {
        (g[0] - 48) as u32 * 100 + (g[1] - 48) as u32 * 10 + (g[2] - 48) as u32
    };
    assert(v == dec_val(g@));
    if v > 255 {
        None
    } else {
        Some(v as u8)
    }
}

/// Reads one IPv6 group.
pub fn parse_hex_group(g: &[u8]) -> (r: Option<u16>)
    ensures
        r == spec_parse_hex_group(g@),
{
    let n = g.len();
    if n == 0 || n > 4 {
        return None;
    }
    let mut vals: Vec<u32> = Vec::new();
    let mut i: usize = 0;
    while i < n
        invariant
            i <= n,
            n == g@.len(),
            vals@.len() == i,
            forall|j: int| 0 <= j < i ==> is_hex_digit(#[trigger] g@[j]),
            forall|j: int| 0 <= j < i ==> #[trigger] vals@[j] == hex_digit_val(g@[j]),
        decreases n - i,
    {
        let b = g[i];
        let d: u32 = if 48 <= b && b <= 57 {
            (b - 48) as u32
        } else if 97 <= b && b <= 102 {
            (b - 87) as u32
        } else if 65 <= b && b <= 70 {
            (b - 55) as u32
        } else {
            assert(!is_hex_digit(g@[i as int]));
            assert(!all_hex_digits(g@));
            return None;
        };
        vals.push(d);
        i += 1;
    }
    assert(all_hex_digits(g@));
    proof {
        lemma_hex_val_short(g@);
    }
    let v: u32 = if n == 1 {
        vals[0]
    } else if n == 2 {
        vals[0] * 16 + vals[1]
    } else if n == 3 {
        (vals[0] * 16 + vals[1]) * 16 + vals[2]
    } else {
        ((vals[0] * 16 + vals[1]) * 16 + vals[2]) * 16 + vals[3]
    };
    assert(v == hex_val(g@));
    assert(v < 65536);
    Some(v as u16)
}

/// `first_empty` names the first empty piece: the piece there is empty
/// and no earlier one is.
proof fn lemma_first_empty(gs: Seq<Seq<u8>>)
    ensures
        first_empty(gs) >= -1,
        first_empty(gs) == -1 ==> forall|j: int| 0 <= j < gs.len() ==> gs[j].len() != 0,
        first_empty(gs) >= 0 ==> {
            &&& first_empty(gs) < gs.len()
            &&& gs[first_empty(gs)].len() == 0
            &&& forall|j: int| 0 <= j < first_empty(gs) ==> gs[j].len() != 0
        },
    decreases gs.len(),
{
    if gs.len() != 0 && gs[0].len() != 0 {
        lemma_first_empty(gs.skip(1));
        let r = first_empty(gs.skip(1));
        assert(gs.skip(1).len() == gs.len() - 1);
        if r == -1 {
            assert forall|j: int| 0 <= j < gs.len() implies gs[j].len() != 0 by {
                if j >= 1 {
                    assert(gs.skip(1)[j - 1].len() != 0);
                }
            }
        } else {
            assert(gs[r + 1] == gs.skip(1)[r]);
            assert forall|j: int| 0 <= j < r + 1 implies gs[j].len() != 0 by {
                if j >= 1 {
                    assert(gs.skip(1)[j - 1].len() != 0);
                }
            }
        }
    }
}

/// A piece list with no empty piece counts none.
proof fn lemma_empty_count_all_nonempty(gs: Seq<Seq<u8>>)
    requires
        forall|j: int| 0 <= j < gs.len() ==> gs[j].len() != 0,
    ensures
        empty_count(gs) == 0,
    decreases gs.len(),
{
    if gs.len() != 0 {
        lemma_empty_count_all_nonempty(gs.drop_last());
    }
}

/// A piece list whose prefix fails to parse fails as a whole.
proof fn lemma_parse_groups_prefix_none(gs: Seq<Seq<u8>>, k: int)
    requires
        0 <= k <= gs.len(),
        parse_groups(gs.take(k)) is None,
    ensures
        parse_groups(gs) is None,
    decreases gs.len(),
{
    if k == gs.len() {
        assert(gs.take(k) =~= gs);
    } else {
        assert(gs.drop_last().take(k) =~= gs.take(k));
        lemma_parse_groups_prefix_none(gs.drop_last(), k);
    }
}

/// Counts the empty pieces and finds the first, as the spec functions
/// describe.
fn count_empties(gs: &Vec<Vec<u8>>) -> (r: (usize, Option<usize>))
    ensures
        r.0 == empty_count(views_of(gs@)),
        match r.1 {
            Some(f) => f == first_empty(views_of(gs@)) && f < gs@.len(),
            None => first_empty(views_of(gs@)) == -1,
        },
{
    let ghost vs = views_of(gs@);
    let mut cnt: usize = 0;
    let mut first: Option<usize> = None;
    let mut i: usize = 0;
    proof {
        assert(vs.take(0) =~= Seq::<Seq<u8>>::empty());
    }
    while i < gs.len()
        invariant
            i <= gs@.len(),
            vs == views_of(gs@),
            cnt <= i,
            cnt == empty_count(vs.take(i as int)),
            match first {
                Some(f) => f < i && vs[f as int].len() == 0 && forall|j: int|
                    0 <= j < f ==> vs[j].len() != 0,
                None => forall|j: int| 0 <= j < i ==> vs[j].len() != 0,
            },
        decreases gs@.len() - i,
    {
        proof {
            assert(vs.take(i as int + 1).drop_last() =~= vs.take(i as int));
            assert(vs.take(i as int + 1).last() == vs[i as int]);
        }
        if gs[i].len() == 0 {
            cnt += 1;
            if first.is_none() {
                first = Some(i);
            }
        }
        i += 1;
    }
    proof {
        assert(vs.take(gs@.len() as int) =~= vs);
        lemma_first_empty(vs);
        let f0 = first_empty(vs);
        match first {
            Some(f) => {
                if f0 == -1 {
                    assert(vs[f as int].len() != 0);
                } else if f0 < f {
                    assert(vs[f0].len() != 0);
                } else if f0 > f {
                    assert(vs[f as int].len() != 0);
                }
            },
            None => {
                if f0 >= 0 {
                    assert(vs[f0].len() != 0);
                }
            },
        }
    }
    (cnt, first)
}

/// Reads the group values of the pieces from `from` to `to`, as
/// `parse_groups` describes over that range.
fn parse_group_range(gs: &Vec<Vec<u8>>, from: usize, to: usize) -> (r: Option<Vec<u16>>)
    requires
        from <= to <= gs@.len(),
    ensures
        match r {
            Some(vals) => {
                &&& parse_groups(views_of(gs@).subrange(from as int, to as int)) == Some(vals@)
                &&& vals@.len() == to - from
            },
            None => parse_groups(views_of(gs@).subrange(from as int, to as int)) is None,
        },
{
    let ghost sub = views_of(gs@).subrange(from as int, to as int);
    let mut vals: Vec<u16> = Vec::new();
    let mut k: usize = from;
    proof {
        assert(sub.take(0) =~= Seq::<Seq<u8>>::empty());
    }
    while k < to
        invariant
            from <= k <= to <= gs@.len(),
            sub == views_of(gs@).subrange(from as int, to as int),
            vals@.len() == k - from,
            parse_groups(sub.take(k - from)) == Some(vals@),
        decreases to - k,
    {
        proof {
            assert(sub.take(k - from + 1).drop_last() =~= sub.take(k - from));
            assert(sub.take(k - from + 1).last() == sub[k - from]);
            assert(sub[k - from] == gs@[k as int]@);
        }
        match parse_hex_group(gs[k].as_slice()) {
            Some(v) => {
                vals.push(v);
            },
            None => {
                proof {
                    assert(parse_groups(sub.take(k - from + 1)) is None);
                    lemma_parse_groups_prefix_none(sub, k - from + 1);
                }
                return None;
            },
        }
        k += 1;
    }
    proof {
        assert(sub.take(to - from) =~= sub);
    }
    Some(vals)
}

/// Reads an address from its text form. Accepts dotted-decimal IPv4 and
/// colon-separated IPv6, full or with one `::`; returns `None` for
/// anything else.
pub fn parse_ip(s: &[u8]) -> (r: Option<IpAddr>)
    ensures
        r == spec_parse_ip(s@),
{
    if contains_byte(s, COLON) {
        parse_ipv6_text(s)
    } else {
        let gs = split_bytes(s, DOT);
        let ghost spec_gs = spec_split(s@, DOT);
        if gs.len() != 4 {
            return None;
        }
        assert(forall|j: int| 0 <= j < 4 ==> #[trigger] gs@[j]@ == spec_gs[j]);
        let a = parse_dec_group(gs[0].as_slice());
        let b = parse_dec_group(gs[1].as_slice());
        let c = parse_dec_group(gs[2].as_slice());
        let d = parse_dec_group(gs[3].as_slice());
        match (a, b, c, d) {
            (Some(a), Some(b), Some(c), Some(d)) => Some(IpAddr::V4(a, b, c, d)),
            _ => None,
        }
    }
}

/// Joins head values, the `::` zero fill, and tail values into the
/// eight-group address.
fn assemble_v6(head: Vec<u16>, tail: Vec<u16>) -> (r: IpAddr)
    requires
        head@.len() + tail@.len() <= 7,
    ensures
        r == v6_from(
            head@ + Seq::new((8 - head@.len() - tail@.len()) as nat, |i: int| 0u16) + tail@,
        ),
{
    let ghost hseq = head@;
    let ghost tseq = tail@;
    let ghost zseq = Seq::new((8 - hseq.len() - tseq.len()) as nat, |i: int| 0u16);
    let ghost whole = hseq + zseq + tseq;
    let fill: usize = 8 - head.len() - tail.len();
    let mut vals = head;
    let mut k: usize = 0;
    while k < fill
        invariant
            k <= fill,
            fill == zseq.len(),
            zseq == Seq::new(zseq.len(), |i: int| 0u16),
            whole == hseq + zseq + tseq,
            whole.len() == 8,
            vals@.len() == hseq.len() + k,
            vals@ == whole.take(vals@.len() as int),
        decreases fill - k,
    {
        proof {
            assert(whole[vals@.len() as int] == zseq[k as int]);
            assert(zseq[k as int] == 0);
        }
        vals.push(0);
        proof {
            assert(vals@ =~= whole.take(vals@.len() as int));
        }
        k += 1;
    }
    let mut t = tail;
    let mut j: usize = 0;
    let tn = t.len();
    while j < tn
        invariant
            j <= tn,
            t@ == tseq,
            tn == tseq.len(),
            whole == hseq + zseq + tseq,
            whole.len() == 8,
            vals@.len() == 8 - tn + j,
            vals@ == whole.take(vals@.len() as int),
        decreases tn - j,
    {
        proof {
            assert(whole[vals@.len() as int] == tseq[j as int]);
        }
        vals.push(t[j]);
        proof {
            assert(vals@ =~= whole.take(vals@.len() as int));
        }
        j += 1;
    }
    proof {
        assert(whole.take(whole.len() as int) =~= whole);
    }
    IpAddr::V6(vals[0], vals[1], vals[2], vals[3], vals[4], vals[5], vals[6], vals[7])
}

/// Reads colon-separated IPv6 text, full or compressed.
fn parse_ipv6_text(s: &[u8]) -> (r: Option<IpAddr>)
    ensures
        r == spec_parse_ipv6(s@),
{
    let gs = split_bytes(s, COLON);
    let ghost vs = spec_split(s@, COLON);
    let n = gs.len();
    proof {
        assert(forall|j: int| 0 <= j < vs.len() ==> #[trigger] vs[j] == gs@[j]@);
    }
    let (n_empty, first) = count_empties(&gs);
    if n_empty == 0 {
        if n != 8 {
            return None;
        }
        proof {
            assert(views_of(gs@).subrange(0, 8) =~= vs);
        }
        match parse_group_range(&gs, 0, 8) {
            Some(vals) => {
                Some(IpAddr::V6(
                    vals[0],
                    vals[1],
                    vals[2],
                    vals[3],
                    vals[4],
                    vals[5],
                    vals[6],
                    vals[7],
                ))
            },
            None => None,
        }
    } else if n == 3 && n_empty == 3 {
        // A lone `::`: every group is zero.
        let head: Vec<u16> = Vec::new();
        let tail: Vec<u16> = Vec::new();
        proof {
            assert(parse_groups(Seq::<Seq<u8>>::empty()) == Some(Seq::<u16>::empty()));
        }
        Some(assemble_v6(head, tail))
    } else if n >= 3 && n_empty == 2 && gs[0].len() == 0 && gs[1].len() == 0 {
        // Leading `::`: only a tail.
        if n - 2 > 7 {
            return None;
        }
        proof {
            assert(vs.skip(2) =~= views_of(gs@).subrange(2, n as int));
            assert(parse_groups(Seq::<Seq<u8>>::empty()) == Some(Seq::<u16>::empty()));
        }
        match parse_group_range(&gs, 2, n) {
            Some(tail) => Some(assemble_v6(Vec::new(), tail)),
            None => None,
        }
    } else if n >= 3 && n_empty == 2 && gs[n - 1].len() == 0 && gs[n - 2].len() == 0 {
        // Trailing `::`: only a head.
        if n - 2 > 7 {
            return None;
        }
        proof {
            assert(vs.take(n - 2) =~= views_of(gs@).subrange(0, n - 2));
            assert(parse_groups(Seq::<Seq<u8>>::empty()) == Some(Seq::<u16>::empty()));
        }
        match parse_group_range(&gs, 0, n - 2) {
            Some(head) => Some(assemble_v6(head, Vec::new())),
            None => None,
        }
    } else {
        let f = match first {
            Some(f) => f,
            None => {
                proof {
                    lemma_first_empty(vs);
                    lemma_empty_count_all_nonempty(vs);
                }
                return None;
            },
        };
        if n >= 3 && n_empty == 1 && 0 < f && f < n - 1 {
            // An inner `::`: a head and a tail.
            if n - 1 > 7 {
                return None;
            }
            proof {
                assert(vs.take(f as int) =~= views_of(gs@).subrange(0, f as int));
                assert(vs.skip(f as int + 1) =~= views_of(gs@).subrange(f as int + 1, n as int));
            }
            match (parse_group_range(&gs, 0, f), parse_group_range(&gs, f + 1, n)) {
                (Some(head), Some(tail)) => Some(assemble_v6(head, tail)),
                _ => None,
            }
        } else {
            None
        }
    }
}

// ---------------------------------------------------------------------------
// Round trip: parsing inverts formatting
// ---------------------------------------------------------------------------

/// Membership in a singleton string.
pub proof fn lemma_singleton_contains(x: u8, y: u8)
    ensures
        seq![x].contains(y) <==> x == y,
{
    if seq![x].contains(y) {
        let i = choose|i: int| 0 <= i < seq![x].len() && seq![x][i] == y;
        assert(i == 0);
    }
    if x == y {
        assert(seq![x][0] == y);
    }
}

/// Membership distributes over concatenation.
pub proof fn lemma_contains_concat(a: Seq<u8>, b: Seq<u8>, x: u8)
    ensures
        (a + b).contains(x) <==> a.contains(x) || b.contains(x),
{
    if (a + b).contains(x) {
        let i = choose|i: int| 0 <= i < (a + b).len() && (a + b)[i] == x;
        if i < a.len() {
            assert(a[i] == x);
        } else {
            assert(b[i - a.len()] == x);
        }
    }
    if a.contains(x) {
        let i = choose|i: int| 0 <= i < a.len() && a[i] == x;
        assert((a + b)[i] == x);
    }
    if b.contains(x) {
        let i = choose|i: int| 0 <= i < b.len() && b[i] == x;
        assert((a + b)[a.len() + i] == x);
    }
}

/// Decimal text holds digits only, so neither separator occurs in it.
pub proof fn lemma_dec_charset(n: u8)
    ensures
        all_digits(spec_dec_u8(n)),
        !spec_dec_u8(n).contains(DOT),
        !spec_dec_u8(n).contains(COLON),
{
    let s = spec_dec_u8(n);
    assert(all_digits(s)) by {
        assert(forall|i: int| 0 <= i < s.len() ==> is_digit(#[trigger] s[i]));
    }
    if s.contains(DOT) {
        let i = choose|i: int| 0 <= i < s.len() && s[i] == DOT;
    }
    if s.contains(COLON) {
        let i = choose|i: int| 0 <= i < s.len() && s[i] == COLON;
    }
}

/// Hexadecimal text holds hexadecimal digits only, never a colon.
pub proof fn lemma_hex_charset(n: u16)
    ensures
        all_hex_digits(spec_hex_u16(n)),
        !spec_hex_u16(n).contains(COLON),
        1 <= spec_hex_u16(n).len() <= 4,
{
    let s = spec_hex_u16(n);
    assert(all_hex_digits(s)) by {
        assert(forall|i: int| 0 <= i < s.len() ==> is_hex_digit(#[trigger] s[i]));
    }
    if s.contains(COLON) {
        let i = choose|i: int| 0 <= i < s.len() && s[i] == COLON;
    }
}

/// Reading back the decimal text of a byte gives the byte.
pub proof fn lemma_dec_group_round_trip(n: u8)
    ensures
        spec_parse_dec_group(spec_dec_u8(n)) == Some(n),
{
    let s = spec_dec_u8(n);
    lemma_dec_charset(n);
    lemma_dec_val_short(s);
    if n < 10 {
        assert(dec_val(s) == n);
    } else if n < 100 {
        assert(n as int == (n as int / 10) * 10 + n as int % 10);
        assert(dec_val(s) == n);
        assert(s[0] != 48);
    } else {
        assert(n as int == (n as int / 10) * 10 + n as int % 10);
        assert(n as int / 10 == (n as int / 10 / 10) * 10 + n as int / 10 % 10);
        assert(n as int / 100 == n as int / 10 / 10) by {
            vstd::arithmetic::div_mod::lemma_div_denominator(n as int, 10, 10);
        }
        assert(dec_val(s) == n);
        assert(s[0] != 48);
    }
}

/// Reading back the hexadecimal text of a group gives the group.
pub proof fn lemma_hex_group_round_trip(n: u16)
    ensures
        spec_parse_hex_group(spec_hex_u16(n)) == Some(n),
{
    let s = spec_hex_u16(n);
    lemma_hex_charset(n);
    lemma_hex_val_short(s);
    if n < 16 {
        assert(hex_val(s) == n);
    } else if n < 256 {
        assert(n as int == (n as int / 16) * 16 + n as int % 16);
        assert(hex_val(s) == n);
    } else if n < 4096 {
        assert(n as int == (n as int / 16) * 16 + n as int % 16);
        assert(n as int / 16 == (n as int / 16 / 16) * 16 + n as int / 16 % 16);
        assert(n as int / 256 == n as int / 16 / 16) by {
            vstd::arithmetic::div_mod::lemma_div_denominator(n as int, 16, 16);
        }
        assert(hex_val(s) == n);
    } else {
        assert(n as int == (n as int / 16) * 16 + n as int % 16);
        assert(n as int / 16 == (n as int / 16 / 16) * 16 + n as int / 16 % 16);
        assert(n as int / 16 / 16 == (n as int / 16 / 16 / 16) * 16 + n as int / 16 / 16 % 16);
        assert(n as int / 256 == n as int / 16 / 16) by {
            vstd::arithmetic::div_mod::lemma_div_denominator(n as int, 16, 16);
        }
        assert(n as int / 4096 == n as int / 256 / 16) by {
            vstd::arithmetic::div_mod::lemma_div_denominator(n as int, 256, 16);
        }
        assert(hex_val(s) == n);
    }
}

/// Parsing the canonical text of an IPv4 address gives it back.
#[verifier::rlimit(100)]
proof fn lemma_ipv4_round_trip(ip: IpAddr)
    requires
        ip is V4,
    ensures
        spec_parse_ip(spec_format_ip(ip)) == Some(ip),
{
    let s = spec_format_ip(ip);
    match ip {
        IpAddr::V4(a, b, c, d) => {
            let da = spec_dec_u8(a);
            let db = spec_dec_u8(b);
            let dc = spec_dec_u8(c);
            let dd = spec_dec_u8(d);
            lemma_dec_charset(a);
            lemma_dec_charset(b);
            lemma_dec_charset(c);
            lemma_dec_charset(d);
            lemma_singleton_contains(DOT, COLON);
            assert(!s.contains(COLON)) by {
                lemma_contains_concat(da + seq![DOT] + db + seq![DOT] + dc + seq![DOT], dd, COLON);
                lemma_contains_concat(da + seq![DOT] + db + seq![DOT] + dc, seq![DOT], COLON);
                lemma_contains_concat(da + seq![DOT] + db + seq![DOT], dc, COLON);
                lemma_contains_concat(da + seq![DOT] + db, seq![DOT], COLON);
                lemma_contains_concat(da + seq![DOT], db, COLON);
                lemma_contains_concat(da, seq![DOT], COLON);
            }
            let rest2 = dc + seq![DOT] + dd;
            let rest1 = db + seq![DOT] + rest2;
            assert(s =~= da + seq![DOT] + rest1);
            lemma_split_at_sep(da, DOT, rest1);
            lemma_split_at_sep(db, DOT, rest2);
            lemma_split_at_sep(dc, DOT, dd);
            lemma_split_no_sep(dd, DOT);
            assert(spec_split(s, DOT) =~~= seq![da, db, dc, dd]);
            lemma_dec_group_round_trip(a);
            lemma_dec_group_round_trip(b);
            lemma_dec_group_round_trip(c);
            lemma_dec_group_round_trip(d);
            assert(spec_parse_ip(s) == Some(ip));
        },
        _ => {},
    }
}

/// The IPv6 text re-associated around the first separator: the first
/// group, one colon, then the rest of the groups joined the same way.
proof fn lemma_v6_reassoc(
    h0: Seq<u8>,
    h1: Seq<u8>,
    h2: Seq<u8>,
    h3: Seq<u8>,
    h4: Seq<u8>,
    h5: Seq<u8>,
    h6: Seq<u8>,
    h7: Seq<u8>,
)
    ensures
        h0 + seq![COLON] + h1 + seq![COLON] + h2 + seq![COLON] + h3 + seq![COLON] + h4
            + seq![COLON] + h5 + seq![COLON] + h6 + seq![COLON] + h7 == h0 + seq![COLON] + (h1
            + seq![COLON] + (h2 + seq![COLON] + (h3 + seq![COLON] + (h4 + seq![COLON] + (h5
            + seq![COLON] + (h6 + seq![COLON] + h7)))))),
{
    let c = seq![COLON];
    let r6 = h6 + c + h7;
    let r5 = h5 + c + r6;
    let r4 = h4 + c + r5;
    let r3 = h3 + c + r4;
    let r2 = h2 + c + r3;
    let r1 = h1 + c + r2;
    let p0 = h0 + c;
    let p1 = p0 + h1 + c;
    let p2 = p1 + h2 + c;
    let p3 = p2 + h3 + c;
    let p4 = p3 + h4 + c;
    let p5 = p4 + h5 + c;
    assert(p5 + h6 + c + h7 =~= p5 + r6);
    assert(p4 + h5 + c + r6 =~= p4 + r5);
    assert(p3 + h4 + c + r5 =~= p3 + r4);
    assert(p2 + h3 + c + r4 =~= p2 + r3);
    assert(p1 + h2 + c + r3 =~= p1 + r2);
    assert(p0 + h1 + c + r2 =~= p0 + r1);
}

/// Parsing the canonical text of an IPv6 address gives it back.
#[verifier::rlimit(100)]
proof fn lemma_ipv6_round_trip(ip: IpAddr)
    requires
        ip is V6,
    ensures
        spec_parse_ip(spec_format_ip(ip)) == Some(ip),
{
    let s = spec_format_ip(ip);
    match ip {
        IpAddr::V6(g0, g1, g2, g3, g4, g5, g6, g7) => {
            let h0 = spec_hex_u16(g0);
            let h1 = spec_hex_u16(g1);
            let h2 = spec_hex_u16(g2);
            let h3 = spec_hex_u16(g3);
            let h4 = spec_hex_u16(g4);
            let h5 = spec_hex_u16(g5);
            let h6 = spec_hex_u16(g6);
            let h7 = spec_hex_u16(g7);
            lemma_hex_charset(g0);
            lemma_hex_charset(g1);
            lemma_hex_charset(g2);
            lemma_hex_charset(g3);
            lemma_hex_charset(g4);
            lemma_hex_charset(g5);
            lemma_hex_charset(g6);
            lemma_hex_charset(g7);
            let c = seq![COLON];
            let r6 = h6 + c + h7;
            let r5 = h5 + c + r6;
            let r4 = h4 + c + r5;
            let r3 = h3 + c + r4;
            let r2 = h2 + c + r3;
            let r1 = h1 + c + r2;
            lemma_v6_reassoc(h0, h1, h2, h3, h4, h5, h6, h7);
            assert(h1 + c + (h2 + c + (h3 + c + (h4 + c + (h5 + c + (h6 + c + h7))))) =~= r1);
            assert(s == h0 + c + r1);
            assert(s.contains(COLON)) by {
                lemma_singleton_contains(COLON, COLON);
                lemma_contains_concat(h0, c, COLON);
                lemma_contains_concat(h0 + c, r1, COLON);
            }
            lemma_split_at_sep(h0, COLON, r1);
            lemma_split_at_sep(h1, COLON, r2);
            lemma_split_at_sep(h2, COLON, r3);
            lemma_split_at_sep(h3, COLON, r4);
            lemma_split_at_sep(h4, COLON, r5);
            lemma_split_at_sep(h5, COLON, r6);
            lemma_split_at_sep(h6, COLON, h7);
            lemma_split_no_sep(h7, COLON);
            assert(spec_split(s, COLON) =~~= seq![h0, h1, h2, h3, h4, h5, h6, h7]);
            lemma_hex_group_round_trip(g0);
            lemma_hex_group_round_trip(g1);
            lemma_hex_group_round_trip(g2);
            lemma_hex_group_round_trip(g3);
            lemma_hex_group_round_trip(g4);
            lemma_hex_group_round_trip(g5);
            lemma_hex_group_round_trip(g6);
            lemma_hex_group_round_trip(g7);
            let s8 = seq![h0, h1, h2, h3, h4, h5, h6, h7];
            let s7 = seq![h0, h1, h2, h3, h4, h5, h6];
            let s6 = seq![h0, h1, h2, h3, h4, h5];
            let s5 = seq![h0, h1, h2, h3, h4];
            let s4 = seq![h0, h1, h2, h3];
            let s3 = seq![h0, h1, h2];
            let s2 = seq![h0, h1];
            let s1 = seq![h0];
            let s0 = Seq::<Seq<u8>>::empty();
            assert(s8.drop_last() =~= s7);
            assert(s7.drop_last() =~= s6);
            assert(s6.drop_last() =~= s5);
            assert(s5.drop_last() =~= s4);
            assert(s4.drop_last() =~= s3);
            assert(s3.drop_last() =~= s2);
            assert(s2.drop_last() =~= s1);
            assert(s1.drop_last() =~= s0);
            assert(empty_count(s0) == 0);
            assert(empty_count(s1) == 0);
            assert(empty_count(s2) == 0);
            assert(empty_count(s3) == 0);
            assert(empty_count(s4) == 0);
            assert(empty_count(s5) == 0);
            assert(empty_count(s6) == 0);
            assert(empty_count(s7) == 0);
            assert(empty_count(s8) == 0);
            assert(parse_groups(s0) == Some(Seq::<u16>::empty()));
            assert(Seq::<u16>::empty().push(g0) =~= seq![g0]);
            assert(parse_groups(s1) == Some(seq![g0]));
            assert(seq![g0].push(g1) =~= seq![g0, g1]);
            assert(parse_groups(s2) == Some(seq![g0, g1]));
            assert(seq![g0, g1].push(g2) =~= seq![g0, g1, g2]);
            assert(parse_groups(s3) == Some(seq![g0, g1, g2]));
            assert(seq![g0, g1, g2].push(g3) =~= seq![g0, g1, g2, g3]);
            assert(parse_groups(s4) == Some(seq![g0, g1, g2, g3]));
            assert(seq![g0, g1, g2, g3].push(g4) =~= seq![g0, g1, g2, g3, g4]);
            assert(parse_groups(s5) == Some(seq![g0, g1, g2, g3, g4]));
            assert(seq![g0, g1, g2, g3, g4].push(g5) =~= seq![g0, g1, g2, g3, g4, g5]);
            assert(parse_groups(s6) == Some(seq![g0, g1, g2, g3, g4, g5]));
            assert(seq![g0, g1, g2, g3, g4, g5].push(g6) =~= seq![g0, g1, g2, g3, g4, g5, g6]);
            assert(parse_groups(s7) == Some(seq![g0, g1, g2, g3, g4, g5, g6]));
            assert(seq![g0, g1, g2, g3, g4, g5, g6].push(g7) =~= seq![
                g0,
                g1,
                g2,
                g3,
                g4,
                g5,
                g6,
                g7,
            ]);
            assert(parse_groups(s8) == Some(seq![g0, g1, g2, g3, g4, g5, g6, g7]));
            assert(spec_parse_ip(s) == Some(ip));
        },
        _ => {},
    }
}

/// Parsing the canonical text of any address gives that address back.
pub proof fn lemma_ip_round_trip(ip: IpAddr)
    ensures
        spec_parse_ip(spec_format_ip(ip)) == Some(ip),
{
    match ip {
        IpAddr::V4(a, b, c, d) => lemma_ipv4_round_trip(ip),
        IpAddr::V6(g0, g1, g2, g3, g4, g5, g6, g7) => lemma_ipv6_round_trip(ip),
    }
}

} // verus!
