//! Outcomes of one update attempt against the DDNS endpoint, with their
//! canonical text encoding.
//!
//! The endpoint answers with a short code, a space, and a remainder: the
//! new address for a success, free-form detail for a failure. The same
//! text is what a cache file holds. Formatting and parsing are exact
//! inverses for well-formed outcomes, so persistence is lossless.

use vstd::prelude::*;

use crate::config::ClientConfig;
use crate::config::wf_client_config;
use crate::ip::IpAddr;
use crate::ip::parse_ip;
use crate::ip::push_ip;
use crate::ip::spec_format_ip;
use crate::ip::spec_parse_ip;

verus! {

/// Byte value of `' '`.
pub const SPACE: u8 = 32;

/// The classified result of one update attempt, as the endpoint and the
/// cache represent it. Failure codes and detail text are kept as raw
/// bytes, exactly as received.
#[derive(Debug, Clone)]
pub enum DdnsResult {
    /// The update was applied; the endpoint reports the new address.
    Good(IpAddr),
    /// The address already matched; a benign no-op.
    NoChg(IpAddr),
    /// A non-retryable failure: code and detail text.
    FatalError(Vec<u8>, Vec<u8>),
    /// A transient failure: code and detail text.
    RetryableError(Vec<u8>, Vec<u8>),
}

/// The mathematical value of a `DdnsResult`, with byte strings as
/// sequences.
pub enum OutcomeView {
    Good(IpAddr),
    NoChg(IpAddr),
    FatalError(Seq<u8>, Seq<u8>),
    RetryableError(Seq<u8>, Seq<u8>),
}

impl PartialEq for DdnsResult {
    fn eq(&self, other: &DdnsResult) -> (r: bool) {
        self.value_eq(other)
    }
}

impl vstd::std_specs::cmp::PartialEqSpecImpl for DdnsResult {
    open spec fn obeys_eq_spec() -> bool {
        true
    }

    open spec fn eq_spec(&self, other: &DdnsResult) -> bool {
        self@ == other@
    }
}

impl View for DdnsResult {
    type V = OutcomeView;

    open spec fn view(&self) -> OutcomeView {
        match self {
            DdnsResult::Good(ip) => OutcomeView::Good(*ip),
            DdnsResult::NoChg(ip) => OutcomeView::NoChg(*ip),
            DdnsResult::FatalError(code, text) => OutcomeView::FatalError(code@, text@),
            DdnsResult::RetryableError(code, text) => OutcomeView::RetryableError(code@, text@),
        }
    }
}

// ---------------------------------------------------------------------------
// The code words of the wire protocol, as byte sequences
// ---------------------------------------------------------------------------

/// The bytes of `good`.
pub open spec fn code_good() -> Seq<u8> {
    seq![103u8, 111u8, 111u8, 100u8]
}

/// The bytes of `nochg`.
pub open spec fn code_nochg() -> Seq<u8> {
    seq![110u8, 111u8, 99u8, 104u8, 103u8]
}

/// The bytes of `nohost`.
pub open spec fn code_nohost() -> Seq<u8> {
    seq![110u8, 111u8, 104u8, 111u8, 115u8, 116u8]
}

/// The bytes of `badauth`.
pub open spec fn code_badauth() -> Seq<u8> {
    seq![98u8, 97u8, 100u8, 97u8, 117u8, 116u8, 104u8]
}

/// The bytes of `notfqdn`.
pub open spec fn code_notfqdn() -> Seq<u8> {
    seq![110u8, 111u8, 116u8, 102u8, 113u8, 100u8, 110u8]
}

/// The bytes of `badagent`.
pub open spec fn code_badagent() -> Seq<u8> {
    seq![98u8, 97u8, 100u8, 97u8, 103u8, 101u8, 110u8, 116u8]
}

/// The bytes of `!donator`.
pub open spec fn code_donator() -> Seq<u8> {
    seq![33u8, 100u8, 111u8, 110u8, 97u8, 116u8, 111u8, 114u8]
}

/// The bytes of `conflict`.
pub open spec fn code_conflict() -> Seq<u8> {
    seq![99u8, 111u8, 110u8, 102u8, 108u8, 105u8, 99u8, 116u8]
}

/// The bytes of `abuse`.
pub open spec fn code_abuse() -> Seq<u8> {
    seq![97u8, 98u8, 117u8, 115u8, 101u8]
}

/// The bytes of `clienterror`.
pub open spec fn code_clienterror() -> Seq<u8> {
    seq![99u8, 108u8, 105u8, 101u8, 110u8, 116u8, 101u8, 114u8, 114u8, 111u8, 114u8]
}

/// The bytes of `requesterror`.
pub open spec fn code_requesterror() -> Seq<u8> {
    seq![114u8, 101u8, 113u8, 117u8, 101u8, 115u8, 116u8, 101u8, 114u8, 114u8, 111u8, 114u8]
}

/// The bytes of `parseerror`.
pub open spec fn code_parseerror() -> Seq<u8> {
    seq![112u8, 97u8, 114u8, 115u8, 101u8, 101u8, 114u8, 114u8, 111u8, 114u8]
}

/// The bytes of `dnserr`.
pub open spec fn code_dnserr() -> Seq<u8> {
    seq![100u8, 110u8, 115u8, 101u8, 114u8, 114u8]
}

/// The bytes of `911`.
pub open spec fn code_911() -> Seq<u8> {
    seq![57u8, 49u8, 49u8]
}

/// The bytes of `retryable`.
pub open spec fn code_retryable() -> Seq<u8> {
    seq![114u8, 101u8, 116u8, 114u8, 121u8, 97u8, 98u8, 108u8, 101u8]
}

/// `c` is one of the stored non-retryable failure codes.
pub open spec fn is_fatal_code(c: Seq<u8>) -> bool {
    ||| c == code_nohost()
    ||| c == code_badauth()
    ||| c == code_notfqdn()
    ||| c == code_badagent()
    ||| c == code_donator()
    ||| c == code_conflict()
    ||| c == code_abuse()
    ||| c == code_clienterror()
    ||| c == code_requesterror()
    ||| c == code_parseerror()
}

/// `c` is one of the stored transient failure codes.
pub open spec fn is_retryable_code(c: Seq<u8>) -> bool {
    ||| c == code_dnserr()
    ||| c == code_911()
    ||| c == code_retryable()
}

/// A well-formed outcome: failure codes come from the fixed lists. Only
/// such outcomes are ever produced by parsing or by classification, and
/// only they round-trip through the text encoding.
pub open spec fn wf_outcome(o: OutcomeView) -> bool {
    match o {
        OutcomeView::Good(_) => true,
        OutcomeView::NoChg(_) => true,
        OutcomeView::FatalError(code, _) => is_fatal_code(code),
        OutcomeView::RetryableError(code, _) => is_retryable_code(code),
    }
}

// ---------------------------------------------------------------------------
// Spec-level encoding and decoding
// ---------------------------------------------------------------------------

/// The code word an outcome is written with.
pub open spec fn spec_outcome_code(o: OutcomeView) -> Seq<u8> {
    match o {
        OutcomeView::Good(_) => code_good(),
        OutcomeView::NoChg(_) => code_nochg(),
        OutcomeView::FatalError(code, _) => code,
        OutcomeView::RetryableError(code, _) => code,
    }
}

/// What follows the space: the address for a success, the detail text for
/// a failure.
pub open spec fn spec_outcome_payload(o: OutcomeView) -> Seq<u8> {
    match o {
        OutcomeView::Good(ip) => spec_format_ip(ip),
        OutcomeView::NoChg(ip) => spec_format_ip(ip),
        OutcomeView::FatalError(_, text) => text,
        OutcomeView::RetryableError(_, text) => text,
    }
}

/// Canonical text of an outcome: the code word, one space, the payload.
pub open spec fn spec_format_outcome(o: OutcomeView) -> Seq<u8> {
    spec_outcome_code(o) + seq![SPACE] + spec_outcome_payload(o)
}

/// Index of the first occurrence of `x` in `s`, or -1 if there is none.
pub open spec fn find_first(s: Seq<u8>, x: u8) -> int
    decreases s.len(),
{
    if s.len() == 0 {
        -1
    } else if s[0] == x {
        0
    } else {
        let r = find_first(s.skip(1), x);
        if r == -1 {
            -1
        } else {
            r + 1
        }
    }
}

/// `find_first` names the first occurrence: the byte there is `x` and no
/// earlier byte is.
pub proof fn lemma_find_first(s: Seq<u8>, x: u8)
    ensures
        find_first(s, x) >= -1,
        find_first(s, x) == -1 ==> forall|j: int| 0 <= j < s.len() ==> s[j] != x,
        find_first(s, x) >= 0 ==> {
            &&& find_first(s, x) < s.len()
            &&& s[find_first(s, x)] == x
            &&& forall|j: int| 0 <= j < find_first(s, x) ==> s[j] != x
        },
    decreases s.len(),
{
    if s.len() != 0 && s[0] != x {
        lemma_find_first(s.skip(1), x);
        let r = find_first(s.skip(1), x);
        assert(s.skip(1).len() == s.len() - 1);
        if r == -1 {
            assert forall|j: int| 0 <= j < s.len() implies s[j] != x by {
                if j >= 1 {
                    assert(s.skip(1)[j - 1] != x);
                }
            }
        } else {
            assert(s[r + 1] == s.skip(1)[r]);
            assert forall|j: int| 0 <= j < r + 1 implies s[j] != x by {
                if j >= 1 {
                    assert(s.skip(1)[j - 1] != x);
                }
            }
        }
    }
}

/// Decodes outcome text: the code up to the first space picks the
/// variant, and for a success the remainder must be an address. Anything
/// else is rejected.
pub open spec fn spec_parse_outcome(s: Seq<u8>) -> Option<OutcomeView> {
    let i = find_first(s, SPACE);
    if i < 0 {
        None
    } else {
        let code = s.take(i);
        let rest = s.skip(i + 1);
        if code == code_good() {
            match spec_parse_ip(rest) {
                Some(ip) => Some(OutcomeView::Good(ip)),
                None => None,
            }
        } else if code == code_nochg() {
            match spec_parse_ip(rest) {
                Some(ip) => Some(OutcomeView::NoChg(ip)),
                None => None,
            }
        } else if is_fatal_code(code) {
            Some(OutcomeView::FatalError(code, rest))
        } else if is_retryable_code(code) {
            Some(OutcomeView::RetryableError(code, rest))
        } else {
            None
        }
    }
}


// ---------------------------------------------------------------------------
// Executable code-word tests
// ---------------------------------------------------------------------------

/// Whether `c` is the code word `good`.
fn eq_code_good(c: &[u8]) -> (r: bool)
    ensures
        r == (c@ == code_good()),
{
    let r = c.len() == 4 && c[0] == 103 && c[1] == 111 && c[2] == 111 && c[3] == 100;
    proof {
        if r {
            assert(c@ =~= code_good());
        }
    }
    r
}

/// Whether `c` is the code word `nochg`.
fn eq_code_nochg(c: &[u8]) -> (r: bool)
    ensures
        r == (c@ == code_nochg()),
{
    let r = c.len() == 5 && c[0] == 110 && c[1] == 111 && c[2] == 99 && c[3] == 104 && c[4] == 103;
    proof {
        if r {
            assert(c@ =~= code_nochg());
        }
    }
    r
}

/// Whether `c` is the code word `nohost`.
fn eq_code_nohost(c: &[u8]) -> (r: bool)
    ensures
        r == (c@ == code_nohost()),
{
    let r = c.len() == 6 && c[0] == 110 && c[1] == 111 && c[2] == 104 && c[3] == 111 && c[4] == 115 && c[5] == 116;
    proof {
        if r {
            assert(c@ =~= code_nohost());
        }
    }
    r
}

/// Whether `c` is the code word `badauth`.
fn eq_code_badauth(c: &[u8]) -> (r: bool)
    ensures
        r == (c@ == code_badauth()),
{
    let r = c.len() == 7 && c[0] == 98 && c[1] == 97 && c[2] == 100 && c[3] == 97 && c[4] == 117 && c[5] == 116 && c[6] == 104;
    proof {
        if r {
            assert(c@ =~= code_badauth());
        }
    }
    r
}

/// Whether `c` is the code word `notfqdn`.
fn eq_code_notfqdn(c: &[u8]) -> (r: bool)
    ensures
        r == (c@ == code_notfqdn()),
{
    let r = c.len() == 7 && c[0] == 110 && c[1] == 111 && c[2] == 116 && c[3] == 102 && c[4] == 113 && c[5] == 100 && c[6] == 110;
    proof {
        if r {
            assert(c@ =~= code_notfqdn());
        }
    }
    r
}

/// Whether `c` is the code word `badagent`.
fn eq_code_badagent(c: &[u8]) -> (r: bool)
    ensures
        r == (c@ == code_badagent()),
{
    let r = c.len() == 8 && c[0] == 98 && c[1] == 97 && c[2] == 100 && c[3] == 97 && c[4] == 103 && c[5] == 101 && c[6] == 110 && c[7] == 116;
    proof {
        if r {
            assert(c@ =~= code_badagent());
        }
    }
    r
}

/// Whether `c` is the code word `!donator`.
fn eq_code_donator(c: &[u8]) -> (r: bool)
    ensures
        r == (c@ == code_donator()),
{
    let r = c.len() == 8 && c[0] == 33 && c[1] == 100 && c[2] == 111 && c[3] == 110 && c[4] == 97 && c[5] == 116 && c[6] == 111 && c[7] == 114;
    proof {
        if r {
            assert(c@ =~= code_donator());
        }
    }
    r
}

/// Whether `c` is the code word `conflict`.
fn eq_code_conflict(c: &[u8]) -> (r: bool)
    ensures
        r == (c@ == code_conflict()),
{
    let r = c.len() == 8 && c[0] == 99 && c[1] == 111 && c[2] == 110 && c[3] == 102 && c[4] == 108 && c[5] == 105 && c[6] == 99 && c[7] == 116;
    proof {
        if r {
            assert(c@ =~= code_conflict());
        }
    }
    r
}

/// Whether `c` is the code word `abuse`.
fn eq_code_abuse(c: &[u8]) -> (r: bool)
    ensures
        r == (c@ == code_abuse()),
{
    let r = c.len() == 5 && c[0] == 97 && c[1] == 98 && c[2] == 117 && c[3] == 115 && c[4] == 101;
    proof {
        if r {
            assert(c@ =~= code_abuse());
        }
    }
    r
}

/// Whether `c` is the code word `clienterror`.
fn eq_code_clienterror(c: &[u8]) -> (r: bool)
    ensures
        r == (c@ == code_clienterror()),
{
    let r = c.len() == 11 && c[0] == 99 && c[1] == 108 && c[2] == 105 && c[3] == 101 && c[4] == 110 && c[5] == 116 && c[6] == 101 && c[7] == 114 && c[8] == 114 && c[9] == 111 && c[10] == 114;
    proof {
        if r {
            assert(c@ =~= code_clienterror());
        }
    }
    r
}

/// Whether `c` is the code word `requesterror`.
fn eq_code_requesterror(c: &[u8]) -> (r: bool)
    ensures
        r == (c@ == code_requesterror()),
{
    let r = c.len() == 12 && c[0] == 114 && c[1] == 101 && c[2] == 113 && c[3] == 117 && c[4] == 101 && c[5] == 115 && c[6] == 116 && c[7] == 101 && c[8] == 114 && c[9] == 114 && c[10] == 111 && c[11] == 114;
    proof {
        if r {
            assert(c@ =~= code_requesterror());
        }
    }
    r
}

/// Whether `c` is the code word `parseerror`.
fn eq_code_parseerror(c: &[u8]) -> (r: bool)
    ensures
        r == (c@ == code_parseerror()),
{
    let r = c.len() == 10 && c[0] == 112 && c[1] == 97 && c[2] == 114 && c[3] == 115 && c[4] == 101 && c[5] == 101 && c[6] == 114 && c[7] == 114 && c[8] == 111 && c[9] == 114;
    proof {
        if r {
            assert(c@ =~= code_parseerror());
        }
    }
    r
}

/// Whether `c` is the code word `dnserr`.
fn eq_code_dnserr(c: &[u8]) -> (r: bool)
    ensures
        r == (c@ == code_dnserr()),
{
    let r = c.len() == 6 && c[0] == 100 && c[1] == 110 && c[2] == 115 && c[3] == 101 && c[4] == 114 && c[5] == 114;
    proof {
        if r {
            assert(c@ =~= code_dnserr());
        }
    }
    r
}

/// Whether `c` is the code word `911`.
fn eq_code_911(c: &[u8]) -> (r: bool)
    ensures
        r == (c@ == code_911()),
{
    let r = c.len() == 3 && c[0] == 57 && c[1] == 49 && c[2] == 49;
    proof {
        if r {
            assert(c@ =~= code_911());
        }
    }
    r
}

/// Whether `c` is the code word `retryable`.
fn eq_code_retryable(c: &[u8]) -> (r: bool)
    ensures
        r == (c@ == code_retryable()),
{
    let r = c.len() == 9 && c[0] == 114 && c[1] == 101 && c[2] == 116 && c[3] == 114 && c[4] == 121 && c[5] == 97 && c[6] == 98 && c[7] == 108 && c[8] == 101;
    proof {
        if r {
            assert(c@ =~= code_retryable());
        }
    }
    r
}

/// The code word `clienterror` as a byte vector.
fn make_code_clienterror() -> (v: Vec<u8>)
    ensures
        v@ == code_clienterror(),
{
    let mut v: Vec<u8> = Vec::new();
    v.push(99);
    v.push(108);
    v.push(105);
    v.push(101);
    v.push(110);
    v.push(116);
    v.push(101);
    v.push(114);
    v.push(114);
    v.push(111);
    v.push(114);
    proof {
        assert(v@ =~= code_clienterror());
    }
    v
}

/// The code word `requesterror` as a byte vector.
fn make_code_requesterror() -> (v: Vec<u8>)
    ensures
        v@ == code_requesterror(),
{
    let mut v: Vec<u8> = Vec::new();
    v.push(114);
    v.push(101);
    v.push(113);
    v.push(117);
    v.push(101);
    v.push(115);
    v.push(116);
    v.push(101);
    v.push(114);
    v.push(114);
    v.push(111);
    v.push(114);
    proof {
        assert(v@ =~= code_requesterror());
    }
    v
}

/// The code word `parseerror` as a byte vector.
fn make_code_parseerror() -> (v: Vec<u8>)
    ensures
        v@ == code_parseerror(),
{
    let mut v: Vec<u8> = Vec::new();
    v.push(112);
    v.push(97);
    v.push(114);
    v.push(115);
    v.push(101);
    v.push(101);
    v.push(114);
    v.push(114);
    v.push(111);
    v.push(114);
    proof {
        assert(v@ =~= code_parseerror());
    }
    v
}

/// The code word `retryable` as a byte vector.
fn make_code_retryable() -> (v: Vec<u8>)
    ensures
        v@ == code_retryable(),
{
    let mut v: Vec<u8> = Vec::new();
    v.push(114);
    v.push(101);
    v.push(116);
    v.push(114);
    v.push(121);
    v.push(97);
    v.push(98);
    v.push(108);
    v.push(101);
    proof {
        assert(v@ =~= code_retryable());
    }
    v
}

/// The four-way classification of a code word.
#[derive(Clone, Copy, Debug, PartialEq, Eq, Structural)]
pub enum CodeKind {
    Success,
    NoChange,
    Fatal,
    Retryable,
    Unknown,
}

/// How a code word is classified: the two success words, then the fixed
/// failure lists, and everything else unknown.
pub open spec fn spec_classify_code(c: Seq<u8>) -> CodeKind {
    if c == code_good() {
        CodeKind::Success
    } else if c == code_nochg() {
        CodeKind::NoChange
    } else if is_fatal_code(c) {
        CodeKind::Fatal
    } else if is_retryable_code(c) {
        CodeKind::Retryable
    } else {
        CodeKind::Unknown
    }
}

/// Classifies a code word.
pub fn classify_code(c: &[u8]) -> (k: CodeKind)
    ensures
        k == spec_classify_code(c@),
{
    if eq_code_good(c) {
        CodeKind::Success
    } else if eq_code_nochg(c) {
        CodeKind::NoChange
    } else if eq_code_nohost(c) || eq_code_badauth(c) || eq_code_notfqdn(c) || eq_code_badagent(c)
        || eq_code_donator(c) || eq_code_conflict(c) || eq_code_abuse(c) || eq_code_clienterror(c)
        || eq_code_requesterror(c) || eq_code_parseerror(c) {
        CodeKind::Fatal
    } else if eq_code_dnserr(c) || eq_code_911(c) || eq_code_retryable(c) {
        CodeKind::Retryable
    } else {
        CodeKind::Unknown
    }
}

// ---------------------------------------------------------------------------
// Executable encoding and decoding
// ---------------------------------------------------------------------------

/// Appends all of `s` to `out`.
pub fn push_bytes(out: &mut Vec<u8>, s: &[u8])
    ensures
        final(out)@ == old(out)@ + s@,
{
    let mut i: usize = 0;
    while i < s.len()
        invariant
            i <= s@.len(),
            out@ == old(out)@ + s@.take(i as int),
        decreases s@.len() - i,
    {
        out.push(s[i]);
        proof {
            assert(out@ =~= old(out)@ + s@.take(i + 1));
        }
        i += 1;
    }
    proof {
        assert(old(out)@ + s@.take(s@.len() as int) =~= old(out)@ + s@);
    }
}

/// Index of the first occurrence of `x` in `s`, if any.
pub fn find_byte(s: &[u8], x: u8) -> (r: Option<usize>)
    ensures
        match r {
            Some(i) => i == find_first(s@, x) && i < s@.len(),
            None => find_first(s@, x) == -1,
        },
{
    let mut i: usize = 0;
    while i < s.len()
        invariant
            i <= s@.len(),
            forall|j: int| 0 <= j < i ==> s@[j] != x,
        decreases s@.len() - i,
    {
        if s[i] == x {
            proof {
                lemma_find_first(s@, x);
                let f = find_first(s@, x);
                if f == -1 {
                    assert(s@[i as int] != x);
                } else if f < i {
                    assert(s@[f] != x);
                } else if f > i {
                    assert(s@[i as int] != x);
                }
            }
            return Some(i);
        }
        i += 1;
    }
    proof {
        lemma_find_first(s@, x);
        let f = find_first(s@, x);
        if f >= 0 {
            assert(s@[f] != x);
        }
    }
    None
}

impl DdnsResult {
    /// The canonical text of this outcome, as written to the wire and to
    /// a cache file.
    pub fn to_bytes(&self) -> (r: Vec<u8>)
        ensures
            r@ == spec_format_outcome(self@),
    {
        let mut out: Vec<u8> = Vec::new();
        match self {
            DdnsResult::Good(ip) => {
                let mut w: Vec<u8> = Vec::new();
                w.push(103);
                w.push(111);
                w.push(111);
                w.push(100);
                proof {
                    assert(w@ =~= code_good());
                }
                push_bytes(&mut out, w.as_slice());
                out.push(SPACE);
                push_ip(&mut out, ip);
            },
            DdnsResult::NoChg(ip) => {
                let mut w: Vec<u8> = Vec::new();
                w.push(110);
                w.push(111);
                w.push(99);
                w.push(104);
                w.push(103);
                proof {
                    assert(w@ =~= code_nochg());
                }
                push_bytes(&mut out, w.as_slice());
                out.push(SPACE);
                push_ip(&mut out, ip);
            },
            DdnsResult::FatalError(code, text) => {
                push_bytes(&mut out, code.as_slice());
                out.push(SPACE);
                push_bytes(&mut out, text.as_slice());
            },
            DdnsResult::RetryableError(code, text) => {
                push_bytes(&mut out, code.as_slice());
                out.push(SPACE);
                push_bytes(&mut out, text.as_slice());
            },
        }
        proof {
            assert(out@ =~= spec_format_outcome(self@));
        }
        out
    }

    /// An equal-valued copy of this outcome.
    pub fn duplicate(&self) -> (r: DdnsResult)
        ensures
            r@ == self@,
    {
        match self {
            DdnsResult::Good(ip) => DdnsResult::Good(*ip),
            DdnsResult::NoChg(ip) => DdnsResult::NoChg(*ip),
            DdnsResult::FatalError(code, text) => DdnsResult::FatalError(
                vstd::slice::slice_to_vec(code.as_slice()),
                vstd::slice::slice_to_vec(text.as_slice()),
            ),
            DdnsResult::RetryableError(code, text) => DdnsResult::RetryableError(
                vstd::slice::slice_to_vec(code.as_slice()),
                vstd::slice::slice_to_vec(text.as_slice()),
            ),
        }
    }

    /// Whether two outcomes hold the same value.
    pub fn value_eq(&self, other: &DdnsResult) -> (r: bool)
        ensures
            r == (self@ == other@),
    {
        match (self, other) {
            (DdnsResult::Good(a), DdnsResult::Good(b)) => a == b,
            (DdnsResult::NoChg(a), DdnsResult::NoChg(b)) => a == b,
            (DdnsResult::FatalError(c1, t1), DdnsResult::FatalError(c2, t2)) => {
                let r = c1 == c2 && t1 == t2;
                proof {
                    if r {
                        assert(c1@ =~= c2@);
                        assert(t1@ =~= t2@);
                    } else {
                        if c1@ == c2@ && t1@ == t2@ {
                            assert(c1@ =~= c2@ && t1@ =~= t2@);
                        }
                    }
                }
                r
            },
            (DdnsResult::RetryableError(c1, t1), DdnsResult::RetryableError(c2, t2)) => {
                let r = c1 == c2 && t1 == t2;
                proof {
                    if r {
                        assert(c1@ =~= c2@);
                        assert(t1@ =~= t2@);
                    } else {
                        if c1@ == c2@ && t1@ == t2@ {
                            assert(c1@ =~= c2@ && t1@ =~= t2@);
                        }
                    }
                }
                r
            },
            _ => false,
        }
    }

    /// Decodes outcome text, as `spec_parse_outcome` describes: `None` is
    /// a decode failure.
    pub fn parse(s: &[u8]) -> (r: Option<DdnsResult>)
        ensures
            match r {
                Some(o) => spec_parse_outcome(s@) == Some(o@) && wf_outcome(o@),
                None => spec_parse_outcome(s@) is None,
            },
    {
        proof {
            lemma_parse_wf(s@);
        }
        let i = match find_byte(s, SPACE) {
            Some(i) => i,
            None => {
                return None;
            },
        };
        proof {
            lemma_find_first(s@, SPACE);
        }
        let n = s.len();
        let code = vstd::slice::slice_subrange(s, 0, i);
        let rest = vstd::slice::slice_subrange(s, i + 1, n);
        proof {
            assert(code@ =~= s@.take(i as int));
            assert(rest@ =~= s@.skip(i as int + 1));
        }
        match classify_code(code) {
            CodeKind::Success => match parse_ip(rest) {
                Some(ip) => Some(DdnsResult::Good(ip)),
                None => None,
            },
            CodeKind::NoChange => match parse_ip(rest) {
                Some(ip) => Some(DdnsResult::NoChg(ip)),
                None => None,
            },
            CodeKind::Fatal => Some(
                DdnsResult::FatalError(
                    vstd::slice::slice_to_vec(code),
                    vstd::slice::slice_to_vec(rest),
                ),
            ),
            CodeKind::Retryable => Some(
                DdnsResult::RetryableError(
                    vstd::slice::slice_to_vec(code),
                    vstd::slice::slice_to_vec(rest),
                ),
            ),
            CodeKind::Unknown => None,
        }
    }
}


// ---------------------------------------------------------------------------
// Round trip: decoding inverts encoding
// ---------------------------------------------------------------------------

/// No code word contains a space.
proof fn lemma_code_no_space(c: Seq<u8>)
    requires
        c == code_good() || c == code_nochg() || is_fatal_code(c) || is_retryable_code(c),
    ensures
        !c.contains(SPACE),
{
    if c.contains(SPACE) {
        let i = choose|i: int| 0 <= i < c.len() && c[i] == SPACE;
        assert(c[i] == SPACE);
    }
}

/// The first space of `code` + space + `payload` sits right after the
/// code, when the code itself holds none.
proof fn lemma_find_boundary(code: Seq<u8>, payload: Seq<u8>)
    requires
        !code.contains(SPACE),
    ensures
        find_first(code + seq![SPACE] + payload, SPACE) == code.len(),
    decreases code.len(),
{
    let s = code + seq![SPACE] + payload;
    if code.len() == 0 {
        assert(s[0] == SPACE);
    } else {
        assert(s[0] == code[0]);
        assert(code[0] != SPACE) by {
            if code[0] == SPACE {
                assert(code.contains(SPACE));
            }
        }
        assert(!code.skip(1).contains(SPACE)) by {
            if code.skip(1).contains(SPACE) {
                let i = choose|i: int| 0 <= i < code.skip(1).len() && code.skip(1)[i] == SPACE;
                assert(code[i + 1] == SPACE);
            }
        }
        assert(s.skip(1) =~= code.skip(1) + seq![SPACE] + payload);
        lemma_find_boundary(code.skip(1), payload);
    }
}

/// Whatever parses is well formed: its failure codes come from the lists.
pub proof fn lemma_parse_wf(s: Seq<u8>)
    ensures
        spec_parse_outcome(s) matches Some(o) ==> wf_outcome(o),
{
}

/// Decoding the canonical text of a well-formed outcome gives that
/// outcome back.
#[verifier::rlimit(60)]
pub proof fn lemma_outcome_round_trip(o: OutcomeView)
    requires
        wf_outcome(o),
    ensures
        spec_parse_outcome(spec_format_outcome(o)) == Some(o),
{
    let code = spec_outcome_code(o);
    let payload = spec_outcome_payload(o);
    let s = spec_format_outcome(o);
    match o {
        OutcomeView::Good(_) => lemma_code_no_space(code),
        OutcomeView::NoChg(_) => lemma_code_no_space(code),
        OutcomeView::FatalError(c, _) => lemma_code_no_space(code),
        OutcomeView::RetryableError(c, _) => lemma_code_no_space(code),
    }
    lemma_find_boundary(code, payload);
    assert(find_first(s, SPACE) == code.len());
    assert(s.take(code.len() as int) =~= code);
    assert(s.skip(code.len() as int + 1) =~= payload);
    match o {
        OutcomeView::Good(ip) => {
            crate::ip::lemma_ip_round_trip(ip);
        },
        OutcomeView::NoChg(ip) => {
            crate::ip::lemma_ip_round_trip(ip);
        },
        OutcomeView::FatalError(c, text) => {
            assert(c != code_good() && c != code_nochg());
        },
        OutcomeView::RetryableError(c, text) => {
            assert(c != code_good() && c != code_nochg() && !is_fatal_code(c));
        },
    }
}

// ---------------------------------------------------------------------------
// Classifying what the endpoint answered
// ---------------------------------------------------------------------------

/// The outcome an HTTP answer stands for. A success status carries
/// outcome text, except that a bare `good` or `nochg` (some endpoints
/// send no address back) first has the sent address appended. Text that
/// does not decode is a fatal `parseerror`; a server error or throttling
/// status is a transient `retryable`; any other failure status is a
/// fatal `clienterror`.
pub open spec fn spec_from_http(status: u16, body: Seq<u8>, ip: IpAddr) -> OutcomeView {
    if 200 <= status <= 299 {
        let text = if body == code_good() || body == code_nochg() {
            body + seq![SPACE] + spec_format_ip(ip)
        } else {
            body
        };
        match spec_parse_outcome(text) {
            Some(o) => o,
            None => OutcomeView::FatalError(code_parseerror(), text),
        }
    } else if 500 <= status <= 599 || status == 429 {
        OutcomeView::RetryableError(code_retryable(), body)
    } else {
        OutcomeView::FatalError(code_clienterror(), body)
    }
}

impl DdnsResult {
    /// Classifies an HTTP answer from the update endpoint, given the
    /// status, the answer body, and the address that was sent.
    pub fn from_http(status: u16, body: Vec<u8>, ip: &IpAddr) -> (r: DdnsResult)
        ensures
            r@ == spec_from_http(status, body@, *ip),
            wf_outcome(r@),
    {
        proof {
            lemma_code_no_space(code_retryable());
            lemma_code_no_space(code_clienterror());
            lemma_code_no_space(code_parseerror());
        }
        if 200 <= status && status <= 299 {
            let ghost body_view = body@;
            let bare = eq_code_good(body.as_slice()) || eq_code_nochg(body.as_slice());
            let text: Vec<u8> = if bare {
                let mut t = body;
                t.push(SPACE);
                push_ip(&mut t, ip);
                proof {
                    assert(t@ =~= body_view + seq![SPACE] + spec_format_ip(*ip));
                }
                t
            } else {
                body
            };
            proof {
                lemma_parse_wf(text@);
            }
            match DdnsResult::parse(text.as_slice()) {
                Some(o) => o,
                None => DdnsResult::FatalError(make_code_parseerror(), text),
            }
        } else if (500 <= status && status <= 599) || status == 429 {
            DdnsResult::RetryableError(make_code_retryable(), body)
        } else {
            DdnsResult::FatalError(make_code_clienterror(), body)
        }
    }

    /// The outcome standing for a transport failure: a fatal
    /// `requesterror` with the given detail.
    pub fn request_error(detail: Vec<u8>) -> (r: DdnsResult)
        ensures
            r@ == OutcomeView::FatalError(code_requesterror(), detail@),
            wf_outcome(r@),
    {
        DdnsResult::FatalError(make_code_requesterror(), detail)
    }
}


// ---------------------------------------------------------------------------
// The update client's settings
// ---------------------------------------------------------------------------

/// One form of authentication against the update endpoint.
#[derive(Debug, Clone)]
pub enum Auth {
    /// Basic authentication: username and password.
    Password(String, String),
    /// Token authentication.
    Token(String),
}

/// What a call to the update endpoint needs: the URL and the credentials.
/// The call itself is the caller's side; `DdnsResult::from_http` then
/// classifies what came back.
#[derive(Debug, Clone)]
pub struct Client {
    /// The chosen authentication.
    pub auth: Auth,
    /// URL of the update API.
    pub update_url: String,
}

/// The client carries the settings' URL and their one authentication
/// form.
pub open spec fn client_matches_config(c: &Client, cfg: &ClientConfig) -> bool {
    &&& c.update_url@ == cfg.dyndns_url@
    &&& match cfg.token {
        Some(t) => c.auth matches Auth::Token(t2) && t2@ == t@,
        None => match (cfg.username, cfg.password) {
            (Some(u), Some(p)) => c.auth matches Auth::Password(u2, p2) && u2@ == u@ && p2@ == p@,
            _ => false,
        },
    }
}

impl Client {
    /// Builds a client from validated settings.
    pub fn from_config(config: &ClientConfig) -> (r: Client)
        requires
            wf_client_config(config),
        ensures
            client_matches_config(&r, config),
    {
        let auth = match (&config.username, &config.password, &config.token) {
            (Some(u), Some(p), _) => Auth::Password(u.clone(), p.clone()),
            (_, _, Some(t)) => Auth::Token(t.clone()),
            _ => {
                proof {
                    assert(false);
                }
                Auth::Token(String::new())
            },
        };
        Client { auth, update_url: config.dyndns_url.clone() }
    }
}

} // verus!
