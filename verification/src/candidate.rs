//! ICE candidate attributes (RFC 5245, section 15.1): the grammar that reads a
//! `candidate:` line, and the line that a candidate is written as.
use vstd::prelude::*;

use crate::candidate_type::{CandidateType, CandidateTypeView};
use vstd::seq_lib::lemma_concat_associative;

use crate::text::{
    lemma_decimal_text, lemma_run_end_exact, is_space, append_decimal, chars_of, decimal_text, decimal_value, is_digit, is_lower, lemma_run_end,
    occurs_at, occurs_at_exec, parse_decimal, run_end, scan_run, space_at, CharClass,
};
use crate::transport::{transport_text, Transport};

verus! {

/// The fields of an ICE candidate, as plain values.
#[derive(Debug)]
pub struct ParsedIceCandidate {
    pub foundation: String,
    pub component: u32,
    pub transport: Transport,
    pub priority: u32,
    pub ip: String,
    pub port: u16,
    pub typ: CandidateType,
}

/// A candidate with its strings taken as character sequences.
pub struct CandidateView {
    pub foundation: Seq<char>,
    pub component: u32,
    pub transport: Transport,
    pub priority: u32,
    pub ip: Seq<char>,
    pub port: u16,
    pub typ: CandidateTypeView,
}

impl View for ParsedIceCandidate {
    type V = CandidateView;

    open spec fn view(&self) -> CandidateView {
        CandidateView {
            foundation: self.foundation@,
            component: self.component,
            transport: self.transport,
            priority: self.priority,
            ip: self.ip@,
            port: self.port,
            typ: self.typ@,
        }
    }
}

// ---------------------------------------------------------------------------
// The words of the grammar

pub open spec fn lit_candidate() -> Seq<char> {
    seq!['c', 'a', 'n', 'd', 'i', 'd', 'a', 't', 'e', ':']
}

pub open spec fn lit_typ() -> Seq<char> {
    seq!['t', 'y', 'p']
}

pub open spec fn lit_host() -> Seq<char> {
    seq!['h', 'o', 's', 't']
}

pub open spec fn lit_srflx() -> Seq<char> {
    seq!['s', 'r', 'f', 'l', 'x']
}

pub open spec fn lit_prflx() -> Seq<char> {
    seq!['p', 'r', 'f', 'l', 'x']
}

pub open spec fn lit_raddr() -> Seq<char> {
    seq!['r', 'a', 'd', 'd', 'r']
}

pub open spec fn lit_tcptype() -> Seq<char> {
    seq!['t', 'c', 'p', 't', 'y', 'p', 'e']
}

pub open spec fn lit_rport() -> Seq<char> {
    seq!['r', 'p', 'o', 'r', 't']
}

/// The text after the other fields of a written candidate line.
pub open spec fn lit_typ_host_suffix() -> Seq<char> {
    seq![' ', 't', 'y', 'p', ' ', 'h', 'o', 's', 't']
}

/// The candidate type keyword that follows `typ`.
#[derive(Clone, Copy, Debug, PartialEq, Eq, Structural)]
pub enum KindTag {
    Host,
    Srflx,
    Prflx,
}

pub open spec fn kind_len(k: KindTag) -> int {
    match k {
        KindTag::Host => 4,
        _ => 5,
    }
}

/// The candidate type keyword at `p`, tried in the order host, srflx, prflx.
pub open spec fn kind_at(s: Seq<char>, p: int) -> Option<KindTag> {
    if occurs_at(s, lit_host(), p) {
        Some(KindTag::Host)
    } else if occurs_at(s, lit_srflx(), p) {
        Some(KindTag::Srflx)
    } else if occurs_at(s, lit_prflx(), p) {
        Some(KindTag::Prflx)
    } else {
        None
    }
}

/// The transport named at `p`: `UDP` (also written `udp`) or `TCP`.
pub open spec fn transport_at(s: Seq<char>, p: int) -> Option<Transport> {
    if 0 <= p && p + 3 <= s.len() && ((s[p] == 'U' && s[p + 1] == 'D' && s[p + 2] == 'P') || (s[p]
        == 'u' && s[p + 1] == 'd' && s[p + 2] == 'p')) {
        Some(Transport::Udp)
    } else if 0 <= p && p + 3 <= s.len() && s[p] == 'T' && s[p + 1] == 'C' && s[p + 2] == 'P' {
        Some(Transport::Tcp)
    } else {
        None
    }
}

/// Where the fields of a candidate stand in a line: each field is the range
/// `(start, end)` of its characters.
pub struct CandidateFields {
    pub foundation: (int, int),
    pub component: (int, int),
    pub transport: Transport,
    pub priority: (int, int),
    pub ip: (int, int),
    pub port: (int, int),
    pub kind: KindTag,
    pub kind_start: int,
    pub end: int,
}

/// The mandatory part of a candidate attribute standing at `i`:
/// `candidate:` FOUNDATION WS COMPONENT WS TRANSPORT WS PRIORITY WS ADDRESS WS
/// PORT WS `typ` WS KIND, where FOUNDATION, COMPONENT, PRIORITY and PORT are
/// runs of digits, ADDRESS a run of `a-z0-9.-`, TRANSPORT is `UDP`, `udp` or
/// `TCP`, KIND is `host`, `srflx` or `prflx`, and WS is one white space
/// character. Each run is as long as it can be.
pub open spec fn match_at(s: Seq<char>, i: int) -> Option<CandidateFields> {
    let p0 = i + 10;
    let f = run_end(s, p0, CharClass::Digit);
    let p1 = f + 1;
    let c = run_end(s, p1, CharClass::Digit);
    let p2 = c + 1;
    let p3 = p2 + 4;
    let pr = run_end(s, p3, CharClass::Digit);
    let p4 = pr + 1;
    let ip = run_end(s, p4, CharClass::HostChar);
    let p5 = ip + 1;
    let po = run_end(s, p5, CharClass::Digit);
    let p6 = po + 1;
    let p7 = p6 + 4;
    if occurs_at(s, lit_candidate(), i) && p0 < f && space_at(s, f) && p1 < c && space_at(s, c)
        && transport_at(s, p2) is Some && space_at(s, p2 + 3) && p3 < pr && space_at(s, pr) && p4
        < ip && space_at(s, ip) && p5 < po && space_at(s, po) && occurs_at(s, lit_typ(), p6)
        && space_at(s, p6 + 3) && kind_at(s, p7) is Some {
        Some(
            CandidateFields {
                foundation: (p0, f),
                component: (p1, c),
                transport: transport_at(s, p2).unwrap(),
                priority: (p3, pr),
                ip: (p4, ip),
                port: (p5, po),
                kind: kind_at(s, p7).unwrap(),
                kind_start: p7,
                end: p7 + kind_len(kind_at(s, p7).unwrap()),
            },
        )
    } else {
        None
    }
}

/// The leftmost candidate attribute in `s` at or after `i`.
pub open spec fn first_match(s: Seq<char>, i: int) -> Option<CandidateFields>
    decreases s.len() - i,
{
    if i < 0 || i >= s.len() {
        None
    } else if match_at(s, i) is Some {
        match_at(s, i)
    } else {
        first_match(s, i + 1)
    }
}

/// Skips repeated `raddr` / `tcptype` keywords.
pub open spec fn skip_words(s: Seq<char>, p: int) -> int
    decreases s.len() - p,
{
    if occurs_at(s, lit_raddr(), p) {
        skip_words(s, p + 5)
    } else if occurs_at(s, lit_tcptype(), p) {
        skip_words(s, p + 7)
    } else {
        p
    }
}

/// Skips repeated `rport` keywords.
pub open spec fn skip_rport(s: Seq<char>, p: int) -> int
    decreases s.len() - p,
{
    if occurs_at(s, lit_rport(), p) {
        skip_rport(s, p + 5)
    } else {
        p
    }
}

/// Reads repeated runs of `a-z` or of `0-9.`; gives where they end and the
/// last run read (or `last` when there is none).
pub open spec fn addr_runs(s: Seq<char>, p: int, last: Option<(int, int)>) -> (int, Option<(int, int)>)
    decreases s.len() - p,
{
    if 0 <= p < s.len() && is_lower(s[p]) {
        let e = run_end(s, p, CharClass::Lower);
        proof {
            lemma_run_end(s, p + 1, CharClass::Lower);
        }
        addr_runs(s, e, Some((p, e)))
    } else if 0 <= p < s.len() && (is_digit(s[p]) || s[p] == '.') {
        let e = run_end(s, p, CharClass::DigitOrDot);
        proof {
            lemma_run_end(s, p + 1, CharClass::DigitOrDot);
        }
        addr_runs(s, e, Some((p, e)))
    } else {
        (p, last)
    }
}

/// The optional tail of a candidate attribute after its type keyword:
/// WS* (`raddr`|`tcptype`)* WS* (`[a-z]+`|`[0-9.]+`)* WS* `rport`* WS* `[0-9]+`?,
/// each part as long as it can be. Gives the related address (the last run of
/// the fourth part) and the related port, where they are present.
pub open spec fn tail_fields(s: Seq<char>, end: int) -> (Option<(int, int)>, Option<(int, int)>) {
    let a = run_end(s, end, CharClass::Space);
    let b = skip_words(s, a);
    let c = run_end(s, b, CharClass::Space);
    let d = addr_runs(s, c, None).0;
    let rip = addr_runs(s, c, None).1;
    let e = run_end(s, d, CharClass::Space);
    let f = skip_rport(s, e);
    let g = run_end(s, f, CharClass::Space);
    let rport = if 0 <= g < s.len() && is_digit(s[g]) {
        Some((g, run_end(s, g, CharClass::Digit)))
    } else {
        None
    };
    (rip, rport)
}

pub open spec fn field(s: Seq<char>, r: (int, int)) -> Seq<char> {
    s.subrange(r.0, r.1)
}

/// What reading a candidate line comes to.
pub enum CandidateOutcome {
    /// The line holds a candidate with these fields.
    Parsed(CandidateView),
    /// The line is refused, with this message.
    Rejected(Seq<char>),
    /// The line holds a candidate whose component, priority or port does not
    /// fit its integer type.
    Overflow,
}

/// The outcome of reading the candidate type of match `m`.
pub open spec fn typ_outcome(s: Seq<char>, m: CandidateFields) -> Result<CandidateTypeView, CandidateOutcome> {
    match m.kind {
        KindTag::Host => if m.transport == Transport::Udp {
            Ok(CandidateTypeView::HostUdp)
        } else {
            Ok(CandidateTypeView::HostTcp(field(s, m.ip)))
        },
        KindTag::Srflx => {
            let rip = tail_fields(s, m.end).0;
            let rport = tail_fields(s, m.end).1;
            if rip is None {
                Err(CandidateOutcome::Rejected("can't parse rip"@))
            } else if rport is None {
                Err(CandidateOutcome::Rejected("can't parse rport"@))
            } else if decimal_value(field(s, rport.unwrap())) > 0xffff {
                Err(CandidateOutcome::Overflow)
            } else {
                Ok(
                    CandidateTypeView::ServerReflexive(
                        field(s, rip.unwrap()),
                        decimal_value(field(s, rport.unwrap())) as u16,
                    ),
                )
            }
        },
        KindTag::Prflx => Err(
            CandidateOutcome::Rejected("unknown type: "@ + s.subrange(m.kind_start, m.end)),
        ),
    }
}

/// What reading the line `s` as an ICE candidate gives.
pub open spec fn candidate_outcome(s: Seq<char>) -> CandidateOutcome {
    match first_match(s, 0) {
        None => CandidateOutcome::Rejected("candidate cant be parsed"@),
        Some(m) => match typ_outcome(s, m) {
            Err(o) => o,
            Ok(typ) => {
                let component = decimal_value(field(s, m.component));
                let priority = decimal_value(field(s, m.priority));
                let port = decimal_value(field(s, m.port));
                if component > 0xffff_ffff || priority > 0xffff_ffff || port > 0xffff {
                    CandidateOutcome::Overflow
                } else {
                    CandidateOutcome::Parsed(
                        CandidateView {
                            foundation: field(s, m.foundation),
                            component: component as u32,
                            transport: m.transport,
                            priority: priority as u32,
                            ip: field(s, m.ip),
                            port: port as u16,
                            typ,
                        },
                    )
                }
            },
        },
    }
}

/// The `k`-th piece of a written candidate line after `candidate:`: the
/// foundation, component, transport text `t`, priority, address and port,
/// separated by single spaces.
pub open spec fn line_piece(v: CandidateView, t: Seq<char>, k: int) -> Seq<char> {
    if k == 0 {
        v.foundation
    } else if k == 2 {
        decimal_text(v.component as nat)
    } else if k == 4 {
        t
    } else if k == 6 {
        decimal_text(v.priority as nat)
    } else if k == 8 {
        v.ip
    } else if k == 10 {
        decimal_text(v.port as nat)
    } else {
        seq![' ']
    }
}

/// The pieces `k..11` of a written candidate line, then ` typ host`.
#[verifier::opaque]
pub open spec fn line_rest(v: CandidateView, t: Seq<char>, k: int) -> Seq<char>
    decreases 11 - k,
{
    if k >= 11 {
        lit_typ_host_suffix()
    } else {
        line_piece(v, t, k) + line_rest(v, t, k + 1)
    }
}

/// The line that a candidate is written as:
/// `candidate:FOUNDATION COMPONENT TRANSPORT PRIORITY ADDRESS PORT typ host`;
/// none when the transport has no text.
pub open spec fn candidate_line(v: CandidateView) -> Option<Seq<char>> {
    match transport_text(v.transport) {
        None => None,
        Some(t) => Some(lit_candidate() + line_rest(v, t, 0)),
    }
}

proof fn lemma_line_step(before: Seq<char>, v: CandidateView, t: Seq<char>, k: int)
    requires
        0 <= k < 11,
    ensures
        (before + line_piece(v, t, k)) + line_rest(v, t, k + 1) == before + line_rest(v, t, k),
{
    reveal(line_rest);
    lemma_concat_associative(before, line_piece(v, t, k), line_rest(v, t, k + 1));
}

proof fn lemma_line_end(v: CandidateView, t: Seq<char>)
    ensures
        line_rest(v, t, 11) == lit_typ_host_suffix(),
{
    reveal(line_rest);
}


// ---------------------------------------------------------------------------
// Facts about the grammar

/// The ranges of a match lie in the line, and its number fields are digits.
pub open spec fn fields_wf(s: Seq<char>, m: CandidateFields) -> bool {
    &&& digits_range(s, m.foundation)
    &&& digits_range(s, m.component)
    &&& digits_range(s, m.priority)
    &&& digits_range(s, m.port)
    &&& 0 <= m.ip.0 <= m.ip.1 <= s.len()
    &&& 0 <= m.kind_start <= m.end <= s.len()
}

pub open spec fn digits_range(s: Seq<char>, r: (int, int)) -> bool {
    &&& 0 <= r.0 <= r.1 <= s.len()
    &&& forall|k: int| r.0 <= k < r.1 ==> is_digit(#[trigger] s[k])
}

pub proof fn lemma_match_at_wf(s: Seq<char>, i: int)
    requires
        match_at(s, i) is Some,
    ensures
        fields_wf(s, match_at(s, i).unwrap()),
{
    let m = match_at(s, i).unwrap();
    lemma_run_end(s, m.foundation.0, CharClass::Digit);
    lemma_run_end(s, m.component.0, CharClass::Digit);
    lemma_run_end(s, m.priority.0, CharClass::Digit);
    lemma_run_end(s, m.ip.0, CharClass::HostChar);
    lemma_run_end(s, m.port.0, CharClass::Digit);
}

pub proof fn lemma_first_match_wf(s: Seq<char>, i: int)
    requires
        first_match(s, i) is Some,
    ensures
        fields_wf(s, first_match(s, i).unwrap()),
    decreases s.len() - i,
{
    if match_at(s, i) is Some {
        lemma_match_at_wf(s, i);
    } else {
        lemma_first_match_wf(s, i + 1);
    }
}

// ---------------------------------------------------------------------------
// Reading a candidate line

fn lit_candidate_vec() -> (v: Vec<char>)
    ensures
        v@ == lit_candidate(),
{
    vec!['c', 'a', 'n', 'd', 'i', 'd', 'a', 't', 'e', ':']
}

fn lit_typ_vec() -> (v: Vec<char>)
    ensures
        v@ == lit_typ(),
{
    vec!['t', 'y', 'p']
}

fn lit_host_vec() -> (v: Vec<char>)
    ensures
        v@ == lit_host(),
{
    vec!['h', 'o', 's', 't']
}

fn lit_srflx_vec() -> (v: Vec<char>)
    ensures
        v@ == lit_srflx(),
{
    vec!['s', 'r', 'f', 'l', 'x']
}

fn lit_prflx_vec() -> (v: Vec<char>)
    ensures
        v@ == lit_prflx(),
{
    vec!['p', 'r', 'f', 'l', 'x']
}

fn lit_raddr_vec() -> (v: Vec<char>)
    ensures
        v@ == lit_raddr(),
{
    vec!['r', 'a', 'd', 'd', 'r']
}

fn lit_tcptype_vec() -> (v: Vec<char>)
    ensures
        v@ == lit_tcptype(),
{
    vec!['t', 'c', 'p', 't', 'y', 'p', 'e']
}

fn lit_rport_vec() -> (v: Vec<char>)
    ensures
        v@ == lit_rport(),
{
    vec!['r', 'p', 'o', 'r', 't']
}

fn space_at_exec(s: &Vec<char>, i: usize) -> (b: bool)
    ensures
        b == space_at(s@, i as int),
{
    i < s.len() && CharClass::Space.test(s[i])
}

fn transport_at_exec(s: &Vec<char>, p: usize) -> (t: Option<Transport>)
    ensures
        t == transport_at(s@, p as int),
{
    if p > s.len() || s.len() - p < 3 {
        return None;
    }
    let (a, b, c) = (s[p], s[p + 1], s[p + 2]);
    if (a == 'U' && b == 'D' && c == 'P') || (a == 'u' && b == 'd' && c == 'p') {
        Some(Transport::Udp)
    } else if a == 'T' && b == 'C' && c == 'P' {
        Some(Transport::Tcp)
    } else {
        None
    }
}

fn kind_at_exec(s: &Vec<char>, p: usize) -> (k: Option<KindTag>)
    ensures
        k == kind_at(s@, p as int),
{
    if occurs_at_exec(s, &lit_host_vec(), p) {
        Some(KindTag::Host)
    } else if occurs_at_exec(s, &lit_srflx_vec(), p) {
        Some(KindTag::Srflx)
    } else if occurs_at_exec(s, &lit_prflx_vec(), p) {
        Some(KindTag::Prflx)
    } else {
        None
    }
}

/// Where the fields of a candidate stand in a line.
pub struct CandidateSpans {
    pub foundation: (usize, usize),
    pub component: (usize, usize),
    pub transport: Transport,
    pub priority: (usize, usize),
    pub ip: (usize, usize),
    pub port: (usize, usize),
    pub kind: KindTag,
    pub kind_start: usize,
    pub end: usize,
}

pub open spec fn range_view(r: (usize, usize)) -> (int, int) {
    (r.0 as int, r.1 as int)
}

pub open spec fn opt_range_view(r: Option<(usize, usize)>) -> Option<(int, int)> {
    match r {
        Some(x) => Some(range_view(x)),
        None => None,
    }
}

impl View for CandidateSpans {
    type V = CandidateFields;

    open spec fn view(&self) -> CandidateFields {
        CandidateFields {
            foundation: range_view(self.foundation),
            component: range_view(self.component),
            transport: self.transport,
            priority: range_view(self.priority),
            ip: range_view(self.ip),
            port: range_view(self.port),
            kind: self.kind,
            kind_start: self.kind_start as int,
            end: self.end as int,
        }
    }
}

fn match_at_exec(s: &Vec<char>, i: usize) -> (r: Option<CandidateSpans>)
    requires
        i <= s.len(),
    ensures
        r is Some <==> match_at(s@, i as int) is Some,
        r matches Some(m) ==> m@ == match_at(s@, i as int).unwrap(),
{
    let n = s.len();
    if n - i < 10 || !occurs_at_exec(s, &lit_candidate_vec(), i) {
        return None;
    }
    let p0 = i + 10;
    let f = scan_run(s, p0, CharClass::Digit);
    if !(p0 < f && space_at_exec(s, f)) {
        return None;
    }
    let p1 = f + 1;
    let c = scan_run(s, p1, CharClass::Digit);
    if !(p1 < c && space_at_exec(s, c)) {
        return None;
    }
    let p2 = c + 1;
    if n - p2 < 4 {
        return None;
    }
    let t = transport_at_exec(s, p2);
    if t.is_none() || !space_at_exec(s, p2 + 3) {
        return None;
    }
    let p3 = p2 + 4;
    let pr = scan_run(s, p3, CharClass::Digit);
    if !(p3 < pr && space_at_exec(s, pr)) {
        return None;
    }
    let p4 = pr + 1;
    let ip = scan_run(s, p4, CharClass::HostChar);
    if !(p4 < ip && space_at_exec(s, ip)) {
        return None;
    }
    let p5 = ip + 1;
    let po = scan_run(s, p5, CharClass::Digit);
    if !(p5 < po && space_at_exec(s, po)) {
        return None;
    }
    let p6 = po + 1;
    if n - p6 < 4 {
        return None;
    }
    if !occurs_at_exec(s, &lit_typ_vec(), p6) || !space_at_exec(s, p6 + 3) {
        return None;
    }
    let p7 = p6 + 4;
    match kind_at_exec(s, p7) {
        None => None,
        Some(kind) => {
            let end = match kind {
                KindTag::Host => p7 + 4,
                _ => p7 + 5,
            };
            Some(
                CandidateSpans {
                    foundation: (p0, f),
                    component: (p1, c),
                    transport: t.unwrap(),
                    priority: (p3, pr),
                    ip: (p4, ip),
                    port: (p5, po),
                    kind,
                    kind_start: p7,
                    end,
                },
            )
        },
    }
}

fn first_match_exec(s: &Vec<char>) -> (r: Option<CandidateSpans>)
    ensures
        r is Some <==> first_match(s@, 0) is Some,
        r matches Some(m) ==> m@ == first_match(s@, 0).unwrap(),
{
    let mut i: usize = 0;
    while i < s.len()
        invariant
            i <= s.len(),
            first_match(s@, 0) == first_match(s@, i as int),
        decreases s.len() - i,
    {
        let m = match_at_exec(s, i);
        if m.is_some() {
            return m;
        }
        i = i + 1;
    }
    None
}

fn skip_words_exec(s: &Vec<char>, p: usize) -> (q: usize)
    requires
        p <= s.len(),
    ensures
        q == skip_words(s@, p as int),
        p <= q <= s.len(),
{
    let raddr = lit_raddr_vec();
    let tcptype = lit_tcptype_vec();
    let mut q = p;
    loop
        invariant
            p <= q <= s.len(),
            raddr@ == lit_raddr(),
            tcptype@ == lit_tcptype(),
            skip_words(s@, q as int) == skip_words(s@, p as int),
        decreases s.len() - q,
    {
        if occurs_at_exec(s, &raddr, q) {
            q = q + 5;
        } else if occurs_at_exec(s, &tcptype, q) {
            q = q + 7;
        } else {
            return q;
        }
    }
}

fn skip_rport_exec(s: &Vec<char>, p: usize) -> (q: usize)
    requires
        p <= s.len(),
    ensures
        q == skip_rport(s@, p as int),
        p <= q <= s.len(),
{
    let rport = lit_rport_vec();
    let mut q = p;
    loop
        invariant
            p <= q <= s.len(),
            rport@ == lit_rport(),
            skip_rport(s@, q as int) == skip_rport(s@, p as int),
        decreases s.len() - q,
    {
        if occurs_at_exec(s, &rport, q) {
            q = q + 5;
        } else {
            return q;
        }
    }
}

fn addr_runs_exec(s: &Vec<char>, p: usize) -> (r: (usize, Option<(usize, usize)>))
    requires
        p <= s.len(),
    ensures
        (r.0 as int, opt_range_view(r.1)) == addr_runs(s@, p as int, None),
        r.0 <= s.len(),
        r.1 matches Some(x) ==> x.0 <= x.1 <= s.len(),
{
    let mut q = p;
    let mut last: Option<(usize, usize)> = None;
    loop
        invariant
            p <= q <= s.len(),
            last matches Some(x) ==> x.0 <= x.1 <= s.len(),
            addr_runs(s@, q as int, opt_range_view(last)) == addr_runs(s@, p as int, None),
        decreases s.len() - q,
    {
        if q < s.len() && CharClass::Lower.test(s[q]) {
            let e = scan_run(s, q, CharClass::Lower);
            proof {
                lemma_run_end(s@, q + 1, CharClass::Lower);
            }
            last = Some((q, e));
            q = e;
        } else if q < s.len() && CharClass::DigitOrDot.test(s[q]) {
            let e = scan_run(s, q, CharClass::DigitOrDot);
            proof {
                lemma_run_end(s@, q + 1, CharClass::DigitOrDot);
            }
            last = Some((q, e));
            q = e;
        } else {
            return (q, last);
        }
    }
}

fn tail_fields_exec(s: &Vec<char>, end: usize) -> (r: (Option<(usize, usize)>, Option<(usize, usize)>))
    requires
        end <= s.len(),
    ensures
        (opt_range_view(r.0), opt_range_view(r.1)) == tail_fields(s@, end as int),
        r.0 matches Some(x) ==> x.0 <= x.1 <= s.len(),
        r.1 matches Some(x) ==> digits_range(s@, range_view(x)),
{
    let a = scan_run(s, end, CharClass::Space);
    let b = skip_words_exec(s, a);
    let c = scan_run(s, b, CharClass::Space);
    let (d, rip) = addr_runs_exec(s, c);
    let e = scan_run(s, d, CharClass::Space);
    let f = skip_rport_exec(s, e);
    let g = scan_run(s, f, CharClass::Space);
    let rport = if g < s.len() && CharClass::Digit.test(s[g]) {
        let h = scan_run(s, g, CharClass::Digit);
        proof {
            lemma_run_end(s@, g as int, CharClass::Digit);
        }
        Some((g, h))
    } else {
        None
    };
    (rip, rport)
}

/// The characters `from..to` of `line` as a string.
fn substr(line: &str, from: usize, to: usize) -> (r: String)
    requires
        from <= to <= line@.len(),
    ensures
        r@ == line@.subrange(from as int, to as int),
{
    line.substring_char(from, to).to_owned()
}

/// Reads `line` as an ICE candidate attribute.
///
/// The first place in the line where the attribute's grammar matches is read
/// (see `match_at`). Gives `None` exactly where the component, priority, port
/// or related port does not fit its integer type; `Some(Err(..))` where the
/// line holds no candidate, where a server reflexive candidate lacks its
/// related address or port, or where the type is `prflx`.
pub fn try_parse_candidate(line: &str) -> (r: Option<Result<ParsedIceCandidate, String>>)
    ensures
        match candidate_outcome(line@) {
            CandidateOutcome::Parsed(v) => r matches Some(Ok(c)) && c@ == v,
            CandidateOutcome::Rejected(msg) => r matches Some(Err(e)) && e@ == msg,
            CandidateOutcome::Overflow => r is None,
        },
{
    let s = chars_of(line);
    let m = match first_match_exec(&s) {
        None => {
            return Some(Err("candidate cant be parsed".to_owned()));
        },
        Some(m) => m,
    };
    proof {
        lemma_first_match_wf(s@, 0);
    }
    let ghost sm = first_match(s@, 0).unwrap();
    assert(sm == m@);
    let typ = match m.kind {
        KindTag::Host => {
            if m.transport == Transport::Udp {
                CandidateType::HostUdp
            } else {
                CandidateType::HostTcp(substr(line, m.ip.0, m.ip.1))
            }
        },
        KindTag::Srflx => {
            let (rip, rport) = tail_fields_exec(&s, m.end);
            match rip {
                None => {
                    return Some(Err("can't parse rip".to_owned()));
                },
                Some(r) => match rport {
                    None => {
                        return Some(Err("can't parse rport".to_owned()));
                    },
                    Some(q) => match parse_decimal(&s, q.0, q.1, 0xffff) {
                        None => {
                            return None;
                        },
                        Some(v) => CandidateType::ServerReflexive(substr(line, r.0, r.1), v as u16),
                    },
                },
            }
        },
        KindTag::Prflx => {
            let mut msg = "unknown type: ".to_owned();
            msg.append(line.substring_char(m.kind_start, m.end));
            return Some(Err(msg));
        },
    };
    assert(typ_outcome(s@, sm) == Ok::<CandidateTypeView, CandidateOutcome>(typ@));
    let component = parse_decimal(&s, m.component.0, m.component.1, 0xffff_ffff);
    let priority = parse_decimal(&s, m.priority.0, m.priority.1, 0xffff_ffff);
    let port = parse_decimal(&s, m.port.0, m.port.1, 0xffff);
    match (component, priority, port) {
        (Some(component), Some(priority), Some(port)) => Some(
            Ok(
                ParsedIceCandidate {
                    foundation: substr(line, m.foundation.0, m.foundation.1),
                    component: component as u32,
                    transport: m.transport,
                    priority: priority as u32,
                    ip: substr(line, m.ip.0, m.ip.1),
                    port: port as u16,
                    typ,
                },
            ),
        ),
        _ => None,
    }
}

/// Reads `line` as an ICE candidate attribute; the same as
/// `try_parse_candidate` for every line whose numbers fit their types.
pub fn parse_candidate(line: &str) -> (r: Result<ParsedIceCandidate, String>)
    requires
        !(candidate_outcome(line@) is Overflow),
    ensures
        match candidate_outcome(line@) {
            CandidateOutcome::Parsed(v) => r matches Ok(c) && c@ == v,
            CandidateOutcome::Rejected(msg) => r matches Err(e) && e@ == msg,
            CandidateOutcome::Overflow => false,
        },
{
    match try_parse_candidate(line) {
        Some(r) => r,
        None => Err(String::new()),
    }
}

impl ParsedIceCandidate {
    /// The attribute line of the candidate,
    /// `candidate:FOUNDATION COMPONENT TRANSPORT PRIORITY ADDRESS PORT typ host`;
    /// `None` when the transport is `Invalid`, which has no text.
    pub fn display(&self) -> (r: Option<String>)
        ensures
            r is Some <==> candidate_line(self@) is Some,
            r matches Some(line) ==> Some(line@) == candidate_line(self@),
    {
        let transport = match self.transport.display() {
            None => {
                return None;
            },
            Some(t) => t,
        };
        proof {
            reveal_strlit("candidate:");
            reveal_strlit(" ");
            reveal_strlit(" typ host");
        }
        let ghost v = self@;
        let ghost t = transport@;
        let mut out = "candidate:".to_owned();
        assert(out@ =~= lit_candidate());
        let ghost before = out@;
        out.append(self.foundation.as_str());
        proof {
            lemma_line_step(before, v, t, 0);
        }
        assert(out@ + line_rest(v, t, 1) == lit_candidate() + line_rest(v, t, 0));
        let ghost before = out@;
        out.append(" ");
        proof {
            lemma_line_step(before, v, t, 1);
        }
        assert(out@ + line_rest(v, t, 2) == lit_candidate() + line_rest(v, t, 0));
        let ghost before = out@;
        append_decimal(&mut out, self.component);
        proof {
            lemma_line_step(before, v, t, 2);
        }
        assert(out@ + line_rest(v, t, 3) == lit_candidate() + line_rest(v, t, 0));
        let ghost before = out@;
        out.append(" ");
        proof {
            lemma_line_step(before, v, t, 3);
        }
        assert(out@ + line_rest(v, t, 4) == lit_candidate() + line_rest(v, t, 0));
        let ghost before = out@;
        out.append(transport.as_str());
        proof {
            lemma_line_step(before, v, t, 4);
        }
        assert(out@ + line_rest(v, t, 5) == lit_candidate() + line_rest(v, t, 0));
        let ghost before = out@;
        out.append(" ");
        proof {
            lemma_line_step(before, v, t, 5);
        }
        assert(out@ + line_rest(v, t, 6) == lit_candidate() + line_rest(v, t, 0));
        let ghost before = out@;
        append_decimal(&mut out, self.priority);
        proof {
            lemma_line_step(before, v, t, 6);
        }
        assert(out@ + line_rest(v, t, 7) == lit_candidate() + line_rest(v, t, 0));
        let ghost before = out@;
        out.append(" ");
        proof {
            lemma_line_step(before, v, t, 7);
        }
        assert(out@ + line_rest(v, t, 8) == lit_candidate() + line_rest(v, t, 0));
        let ghost before = out@;
        out.append(self.ip.as_str());
        proof {
            lemma_line_step(before, v, t, 8);
        }
        assert(out@ + line_rest(v, t, 9) == lit_candidate() + line_rest(v, t, 0));
        let ghost before = out@;
        out.append(" ");
        proof {
            lemma_line_step(before, v, t, 9);
        }
        assert(out@ + line_rest(v, t, 10) == lit_candidate() + line_rest(v, t, 0));
        let ghost before = out@;
        append_decimal(&mut out, self.port as u32);
        proof {
            lemma_line_step(before, v, t, 10);
        }
        assert(out@ + line_rest(v, t, 11) == lit_candidate() + line_rest(v, t, 0));
        let ghost before = out@;
        out.append(" typ host");
        proof {
            lemma_line_end(v, t);
        }
        assert(out@ == before + line_rest(v, t, 11));
        assert(out@ == lit_candidate() + line_rest(v, t, 0));
        Some(out)
    }
}


// ---------------------------------------------------------------------------
// Writing and reading back

/// Splits the part of `line` from `o` on, which is `x + y`.
proof fn lemma_split_at(line: Seq<char>, o: int, x: Seq<char>, y: Seq<char>)
    requires
        0 <= o <= line.len(),
        line.subrange(o, line.len() as int) == x + y,
    ensures
        o + x.len() + y.len() == line.len(),
        line.subrange(o, o + x.len()) == x,
        line.subrange(o + x.len(), line.len() as int) == y,
        forall|k: int| 0 <= k < x.len() ==> line[o + k] == x[k],
{
    let tail = line.subrange(o, line.len() as int);
    assert(tail.len() == x.len() + y.len());
    assert forall|k: int| 0 <= k < x.len() implies line[o + k] == x[k] by {
        assert(tail[k] == (x + y)[k]);
    }
    assert(line.subrange(o, o + x.len()) =~= x);
    assert forall|k: int| 0 <= k < y.len() implies line.subrange(o + x.len(), line.len() as int)[k]
        == y[k] by {
        assert(tail[x.len() + k] == (x + y)[x.len() + k]);
    }
    assert(line.subrange(o + x.len(), line.len() as int) =~= y);
}

/// The start of piece `k` in a written candidate line.
spec fn piece_start(v: CandidateView, t: Seq<char>, k: int) -> int
    decreases k,
{
    if k <= 0 {
        10
    } else {
        piece_start(v, t, k - 1) + line_piece(v, t, k - 1).len()
    }
}

/// Each piece of a written candidate line stands at its start.
proof fn lemma_line_pieces(v: CandidateView, t: Seq<char>, k: int)
    requires
        0 <= k <= 11,
    ensures
        0 <= piece_start(v, t, k) <= (lit_candidate() + line_rest(v, t, 0)).len(),
        (lit_candidate() + line_rest(v, t, 0)).subrange(
            piece_start(v, t, k),
            (lit_candidate() + line_rest(v, t, 0)).len() as int,
        ) == line_rest(v, t, k),
        forall|j: int|
            0 <= j < k ==> #[trigger] (lit_candidate() + line_rest(v, t, 0)).subrange(
                piece_start(v, t, j),
                piece_start(v, t, j) + line_piece(v, t, j).len(),
            ) == line_piece(v, t, j),
    decreases k,
{
    let line = lit_candidate() + line_rest(v, t, 0);
    if k == 0 {
        assert(line.subrange(0, line.len() as int) =~= line);
        lemma_split_at(line, 0, lit_candidate(), line_rest(v, t, 0));
    } else {
        lemma_line_pieces(v, t, k - 1);
        reveal(line_rest);
        assert(line_rest(v, t, k - 1) == line_piece(v, t, k - 1) + line_rest(v, t, k));
        lemma_split_at(line, piece_start(v, t, k - 1), line_piece(v, t, k - 1), line_rest(v, t, k));
    }
}

/// In `line`, the piece `s[a..b]` is `x`.
proof fn lemma_piece_chars(line: Seq<char>, a: int, x: Seq<char>)
    requires
        0 <= a,
        a + x.len() <= line.len(),
        line.subrange(a, a + x.len()) == x,
    ensures
        forall|k: int| a <= k < a + x.len() ==> line[k] == x[k - a],
{
    assert forall|k: int| a <= k < a + x.len() implies line[k] == x[k - a] by {
        assert(line.subrange(a, a + x.len())[k - a] == x[k - a]);
    }
}

/// Where the characters of a written candidate line stand.
proof fn lemma_line_layout(v: CandidateView, t: Seq<char>)
    requires
        t.len() == 3,
    ensures
        ({
            let line = lit_candidate() + line_rest(v, t, 0);
            let a = 10int;
            let b = a + v.foundation.len();
            let c = b + 1 + decimal_text(v.component as nat).len();
            let d = c + 4;
            let e = d + 1 + decimal_text(v.priority as nat).len();
            let f = e + 1 + v.ip.len();
            let g = f + 1 + decimal_text(v.port as nat).len();
            &&& line.len() == g + 9
            &&& line.subrange(0, 10) == lit_candidate()
            &&& line.subrange(a, b) == v.foundation
            &&& line.subrange(b + 1, c) == decimal_text(v.component as nat)
            &&& line.subrange(c + 1, c + 4) == t
            &&& line.subrange(d + 1, e) == decimal_text(v.priority as nat)
            &&& line.subrange(e + 1, f) == v.ip
            &&& line.subrange(f + 1, g) == decimal_text(v.port as nat)
            &&& line.subrange(g, g + 9) == lit_typ_host_suffix()
            &&& line[b] == ' ' && line[c] == ' ' && line[d] == ' ' && line[e] == ' ' && line[f]
                == ' '
        }),
{
    let line = lit_candidate() + line_rest(v, t, 0);
    lemma_line_pieces(v, t, 11);
    reveal_with_fuel(piece_start, 12);
    reveal(line_rest);
    assert(line.subrange(0, 10) =~= lit_candidate());
    let pz = |k: int| line_piece(v, t, k);
    assert(line.subrange(piece_start(v, t, 1), piece_start(v, t, 1) + 1) == pz(1));
    assert(line.subrange(piece_start(v, t, 3), piece_start(v, t, 3) + 1) == pz(3));
    assert(line.subrange(piece_start(v, t, 5), piece_start(v, t, 5) + 1) == pz(5));
    assert(line.subrange(piece_start(v, t, 7), piece_start(v, t, 7) + 1) == pz(7));
    assert(line.subrange(piece_start(v, t, 9), piece_start(v, t, 9) + 1) == pz(9));
    assert(line.subrange(piece_start(v, t, 0), piece_start(v, t, 0) + pz(0).len()) == pz(0));
    assert(line.subrange(piece_start(v, t, 2), piece_start(v, t, 2) + pz(2).len()) == pz(2));
    assert(line.subrange(piece_start(v, t, 4), piece_start(v, t, 4) + pz(4).len()) == pz(4));
    assert(line.subrange(piece_start(v, t, 6), piece_start(v, t, 6) + pz(6).len()) == pz(6));
    assert(line.subrange(piece_start(v, t, 8), piece_start(v, t, 8) + pz(8).len()) == pz(8));
    assert(line.subrange(piece_start(v, t, 10), piece_start(v, t, 10) + pz(10).len()) == pz(10));
    let g = piece_start(v, t, 11);
    assert(line.subrange(g, line.len() as int) == lit_typ_host_suffix());
    lemma_piece_chars(line, piece_start(v, t, 1), pz(1));
    lemma_piece_chars(line, piece_start(v, t, 3), pz(3));
    lemma_piece_chars(line, piece_start(v, t, 5), pz(5));
    lemma_piece_chars(line, piece_start(v, t, 7), pz(7));
    lemma_piece_chars(line, piece_start(v, t, 9), pz(9));
    let a = 10int;
    let b = a + v.foundation.len();
    let c = b + 1 + decimal_text(v.component as nat).len();
    let d = c + 4;
    let e = d + 1 + decimal_text(v.priority as nat).len();
    let f = e + 1 + v.ip.len();
    let g2 = f + 1 + decimal_text(v.port as nat).len();
    assert(piece_start(v, t, 1) == b);
    assert(piece_start(v, t, 3) == c);
    assert(piece_start(v, t, 5) == d);
    assert(piece_start(v, t, 7) == e);
    assert(piece_start(v, t, 9) == f);
    assert(g == g2);
    assert(lit_typ_host_suffix().len() == 9);
    assert(line.subrange(g, line.len() as int).len() == line.len() - g);
    assert(line.len() == g + 9);
    assert(line.subrange(a, b) == v.foundation);
    assert(line.subrange(b + 1, c) == decimal_text(v.component as nat));
    assert(line.subrange(c + 1, c + 4) == t);
    assert(line.subrange(d + 1, e) == decimal_text(v.priority as nat));
    assert(line.subrange(e + 1, f) == v.ip);
    assert(line.subrange(f + 1, g) == decimal_text(v.port as nat));
    assert(line.subrange(g, g + 9) == lit_typ_host_suffix());
    assert(line[b] == ' ');
}

/// The match of the grammar on a written host candidate line.
#[verifier::rlimit(50)]
proof fn lemma_round_trip_match(v: CandidateView, t: Seq<char>)
    requires
        v.foundation.len() > 0,
        forall|k: int| 0 <= k < v.foundation.len() ==> is_digit(#[trigger] v.foundation[k]),
        v.ip.len() > 0,
        forall|k: int| 0 <= k < v.ip.len() ==> CharClass::HostChar.holds(#[trigger] v.ip[k]),
        v.transport != Transport::Invalid,
        transport_text(v.transport) == Some(t),
    ensures
        ({
            let line = lit_candidate() + line_rest(v, t, 0);
            &&& first_match(line, 0) is Some
            &&& first_match(line, 0).unwrap().kind == KindTag::Host
            &&& first_match(line, 0).unwrap().transport == v.transport
            &&& field(line, first_match(line, 0).unwrap().foundation) == v.foundation
            &&& field(line, first_match(line, 0).unwrap().component) == decimal_text(
                v.component as nat,
            )
            &&& field(line, first_match(line, 0).unwrap().priority) == decimal_text(
                v.priority as nat,
            )
            &&& field(line, first_match(line, 0).unwrap().ip) == v.ip
            &&& field(line, first_match(line, 0).unwrap().port) == decimal_text(v.port as nat)
        }),
{
    let line = lit_candidate() + line_rest(v, t, 0);
    lemma_line_layout(v, t);
    lemma_decimal_text(v.component as nat);
    lemma_decimal_text(v.priority as nat);
    lemma_decimal_text(v.port as nat);
    let a = 10int;
    let b = a + v.foundation.len();
    let c = b + 1 + decimal_text(v.component as nat).len();
    let d = c + 4;
    let e = d + 1 + decimal_text(v.priority as nat).len();
    let f = e + 1 + v.ip.len();
    let g = f + 1 + decimal_text(v.port as nat).len();
    lemma_piece_chars(line, a, v.foundation);
    lemma_piece_chars(line, b + 1, decimal_text(v.component as nat));
    lemma_piece_chars(line, c + 1, t);
    lemma_piece_chars(line, d + 1, decimal_text(v.priority as nat));
    lemma_piece_chars(line, e + 1, v.ip);
    lemma_piece_chars(line, f + 1, decimal_text(v.port as nat));
    lemma_piece_chars(line, g, lit_typ_host_suffix());
    assert(is_space(' '));
    assert forall|k: int| a <= k < b implies is_digit(line[k]) by {
        assert(line[k] == v.foundation[k - a]);
    }
    assert forall|k: int| b + 1 <= k < c implies is_digit(line[k]) by {
        assert(line[k] == decimal_text(v.component as nat)[k - (b + 1)]);
    }
    assert forall|k: int| d + 1 <= k < e implies is_digit(line[k]) by {
        assert(line[k] == decimal_text(v.priority as nat)[k - (d + 1)]);
    }
    assert forall|k: int| e + 1 <= k < f implies CharClass::HostChar.holds(line[k]) by {
        assert(line[k] == v.ip[k - (e + 1)]);
    }
    assert forall|k: int| f + 1 <= k < g implies is_digit(line[k]) by {
        assert(line[k] == decimal_text(v.port as nat)[k - (f + 1)]);
    }
    assert(line[g] == ' ');
    lemma_run_end_exact(line, a, b, CharClass::Digit);
    lemma_run_end_exact(line, b + 1, c, CharClass::Digit);
    lemma_run_end_exact(line, d + 1, e, CharClass::Digit);
    lemma_run_end_exact(line, e + 1, f, CharClass::HostChar);
    lemma_run_end_exact(line, f + 1, g, CharClass::Digit);
    assert(line[c + 1] == t[0] && line[c + 2] == t[1] && line[c + 3] == t[2]);
    assert(transport_at(line, c + 1) == Some(v.transport));
    assert(line.subrange(g + 1, g + 4) =~= lit_typ());
    assert(line[g + 4] == ' ');
    assert(line.subrange(g + 5, g + 9) =~= lit_host());
    assert(occurs_at(line, lit_candidate(), 0));
    assert(kind_at(line, g + 5) == Some(KindTag::Host));
    assert(match_at(line, 0) is Some);
    assert(first_match(line, 0) == match_at(line, 0));
}

/// A host candidate whose foundation is a run of digits and whose address is
/// a run of `a-z0-9.-` reads back as itself from the line it is written as.
pub proof fn law_candidate_line_round_trip(v: CandidateView)
    requires
        v.foundation.len() > 0,
        forall|k: int| 0 <= k < v.foundation.len() ==> is_digit(#[trigger] v.foundation[k]),
        v.ip.len() > 0,
        forall|k: int| 0 <= k < v.ip.len() ==> CharClass::HostChar.holds(#[trigger] v.ip[k]),
        (v.transport == Transport::Udp && v.typ == CandidateTypeView::HostUdp) || (v.transport
            == Transport::Tcp && v.typ == CandidateTypeView::HostTcp(v.ip)),
    ensures
        candidate_line(v) matches Some(line) && candidate_outcome(line) == CandidateOutcome::Parsed(v),
{
    let t = transport_text(v.transport).unwrap();
    let line = lit_candidate() + line_rest(v, t, 0);
    lemma_round_trip_match(v, t);
    lemma_decimal_text(v.component as nat);
    lemma_decimal_text(v.priority as nat);
    lemma_decimal_text(v.port as nat);
    let m = first_match(line, 0).unwrap();
    assert(typ_outcome(line, m) == Ok::<CandidateTypeView, CandidateOutcome>(v.typ));
}

// ---------------------------------------------------------------------------
// Server reflexive candidate lines

/// The words after `typ ` in a server reflexive candidate line:
/// `srflx raddr RADDR rport RPORT`.
pub open spec fn srflx_words(raddr: Seq<char>, rport: u16) -> Seq<char> {
    lit_srflx() + seq![' '] + lit_raddr() + seq![' '] + raddr + seq![' '] + lit_rport() + seq![' ']
        + decimal_text(rport as nat)
}

/// The line of a server reflexive candidate:
/// `candidate:FOUNDATION COMPONENT TRANSPORT PRIORITY ADDRESS PORT typ srflx raddr RADDR rport RPORT`,
/// that is the line that `v` is written as, with its type word `host`
/// replaced by `srflx raddr RADDR rport RPORT`.
#[verifier::opaque]
pub open spec fn srflx_line(v: CandidateView, raddr: Seq<char>, rport: u16) -> Seq<char> {
    let host = candidate_line(v).unwrap();
    host.subrange(0, host.len() - 4) + srflx_words(raddr, rport)
}

/// No candidate attribute starts before `n` where no `c` stands there.
proof fn lemma_first_match_from(s: Seq<char>, i: int, n: int)
    requires
        0 <= i <= n <= s.len(),
        forall|k: int| i <= k < n ==> s[k] != 'c',
    ensures
        first_match(s, i) == first_match(s, n),
    decreases n - i,
{
    if i < n {
        if occurs_at(s, lit_candidate(), i) {
            assert(s.subrange(i, i + 10)[0] == s[i]);
            assert(lit_candidate()[0] == 'c');
        }
        assert(match_at(s, i) is None);
        lemma_first_match_from(s, i + 1, n);
    }
}

/// A piece of `x` that `s` copies from `o` on stands in `s` shifted by `o`.
proof fn lemma_shifted_piece(s: Seq<char>, o: int, x: Seq<char>, m: int, lo: int, hi: int, piece: Seq<char>)
    requires
        0 <= o,
        0 <= lo <= hi <= m,
        m <= x.len(),
        o + m <= s.len(),
        forall|k: int| 0 <= k < m ==> #[trigger] x[k] == s[o + k],
        x.subrange(lo, hi) == piece,
    ensures
        s.subrange(o + lo, o + hi) == piece,
{
    assert forall|k: int| 0 <= k < hi - lo implies #[trigger] s.subrange(o + lo, o + hi)[k] == piece[k] by {
        assert(x.subrange(lo, hi)[k] == x[lo + k]);
        assert(x[lo + k] == s[o + (lo + k)]);
    }
    assert(s.subrange(o + lo, o + hi) =~= piece);
}

/// The end of the head of a written candidate line, before ` typ host`.
spec fn head_end(v: CandidateView) -> int {
    (10 + v.foundation.len() + 1 + decimal_text(v.component as nat).len() + 4 + 1 + decimal_text(
        v.priority as nat,
    ).len() + 1 + v.ip.len() + 1 + decimal_text(v.port as nat).len()) as int
}

/// `pre` + a server reflexive line is `pre`, the host line up to `typ `, and
/// the words after it.
proof fn lemma_srflx_split(pre: Seq<char>, v: CandidateView, t: Seq<char>, raddr: Seq<char>, rport: u16)
    requires
        t.len() == 3,
        transport_text(v.transport) == Some(t),
    ensures
        ({
            let s = pre + srflx_line(v, raddr, rport);
            let h = lit_candidate() + line_rest(v, t, 0);
            let n = pre.len() as int;
            let g = head_end(v);
            let w = srflx_words(raddr, rport);
            &&& h.len() == g + 9
            &&& s.len() == n + g + 5 + w.len()
            &&& forall|k: int| 0 <= k < n ==> s[k] == #[trigger] pre[k]
            &&& forall|k: int| 0 <= k < g + 5 ==> #[trigger] h[k] == s[n + k]
            &&& forall|k: int| 0 <= k < w.len() ==> #[trigger] w[k] == s[n + g + 5 + k]
        }),
{
    let h = lit_candidate() + line_rest(v, t, 0);
    lemma_line_layout(v, t);
    reveal(srflx_line);
    let line = srflx_line(v, raddr, rport);
    let s = pre + line;
    let n = pre.len() as int;
    let g = head_end(v);
    let w = srflx_words(raddr, rport);
    assert(candidate_line(v) == Some(h));
    assert(line == h.subrange(0, g + 5) + w);
    assert forall|k: int| 0 <= k < g + 5 implies #[trigger] h[k] == s[n + k] by {
        assert(s[n + k] == line[k]);
        assert(line[k] == h.subrange(0, g + 5)[k]);
    }
    assert forall|k: int| 0 <= k < w.len() implies #[trigger] w[k] == s[n + g + 5 + k] by {
        assert(s[n + g + 5 + k] == line[g + 5 + k]);
    }
}

/// Where the words `srflx raddr RADDR rport RPORT` stand in `s` from `o` on.
#[verifier::rlimit(50)]
proof fn lemma_srflx_words_at(s: Seq<char>, o: int, raddr: Seq<char>, rport: u16)
    requires
        0 <= o,
        o + srflx_words(raddr, rport).len() == s.len(),
        forall|k: int|
            0 <= k < srflx_words(raddr, rport).len() ==> #[trigger] srflx_words(raddr, rport)[k] == s[o + k],
    ensures
        ({
            let r = raddr.len() as int;
            let q = decimal_text(rport as nat);
            &&& s.len() == o + 19 + r + q.len()
            &&& s.subrange(o, o + 5) == lit_srflx()
            &&& s[o + 5] == ' '
            &&& s.subrange(o + 6, o + 11) == lit_raddr()
            &&& s[o + 11] == ' '
            &&& s.subrange(o + 12, o + 12 + r) == raddr
            &&& s[o + 12 + r] == ' '
            &&& s.subrange(o + 13 + r, o + 18 + r) == lit_rport()
            &&& s[o + 18 + r] == ' '
            &&& s.subrange(o + 19 + r, s.len() as int) == q
        }),
{
    let w = srflx_words(raddr, rport);
    let r = raddr.len() as int;
    let q = decimal_text(rport as nat);
    let wr = lit_srflx() + (seq![' '] + (lit_raddr() + (seq![' '] + (raddr + (seq![' '] + (
    lit_rport() + (seq![' '] + q)))))));
    assert(w =~= wr);
    assert(w.subrange(0, 5) =~= lit_srflx());
    assert(w.subrange(6, 11) =~= lit_raddr());
    assert(w.subrange(12, 12 + r) =~= raddr);
    assert(w.subrange(13 + r, 18 + r) =~= lit_rport());
    assert(w.subrange(19 + r, w.len() as int) =~= q);
    assert(w[5] == ' ' && w[11] == ' ' && w[12 + r] == ' ' && w[18 + r] == ' ');
    lemma_shifted_piece(s, o, w, w.len() as int, 0, 5, lit_srflx());
    lemma_shifted_piece(s, o, w, w.len() as int, 6, 11, lit_raddr());
    lemma_shifted_piece(s, o, w, w.len() as int, 12, 12 + r, raddr);
    lemma_shifted_piece(s, o, w, w.len() as int, 13 + r, 18 + r, lit_rport());
    lemma_shifted_piece(s, o, w, w.len() as int, 19 + r, w.len() as int, q);
    assert(w[5] == s[o + 5]);
    assert(w[11] == s[o + 11]);
    assert(w[12 + r] == s[o + 12 + r]);
    assert(w[18 + r] == s[o + 18 + r]);
}

/// A candidate attribute whose type is `srflx` stands at `n` in `s`, with the
/// given pieces at their places.
#[verifier::rlimit(50)]
proof fn lemma_match_at_srflx(
    s: Seq<char>,
    n: int,
    fnd: Seq<char>,
    ct: Seq<char>,
    t: Seq<char>,
    pt: Seq<char>,
    ip: Seq<char>,
    pot: Seq<char>,
    transport: Transport,
)
    requires
        0 <= n,
        t.len() == 3,
        transport_text(transport) == Some(t),
        fnd.len() > 0,
        forall|k: int| 0 <= k < fnd.len() ==> is_digit(#[trigger] fnd[k]),
        ct.len() > 0,
        forall|k: int| 0 <= k < ct.len() ==> is_digit(#[trigger] ct[k]),
        pt.len() > 0,
        forall|k: int| 0 <= k < pt.len() ==> is_digit(#[trigger] pt[k]),
        ip.len() > 0,
        forall|k: int| 0 <= k < ip.len() ==> CharClass::HostChar.holds(#[trigger] ip[k]),
        pot.len() > 0,
        forall|k: int| 0 <= k < pot.len() ==> is_digit(#[trigger] pot[k]),
        ({
            let a = n + 10;
            let b = a + fnd.len();
            let c = b + 1 + ct.len();
            let d = c + 4;
            let e = d + 1 + pt.len();
            let f = e + 1 + ip.len();
            let g = f + 1 + pot.len();
            &&& g + 10 <= s.len()
            &&& s.subrange(n, a) == lit_candidate()
            &&& s.subrange(a, b) == fnd
            &&& s.subrange(b + 1, c) == ct
            &&& s.subrange(c + 1, d) == t
            &&& s.subrange(d + 1, e) == pt
            &&& s.subrange(e + 1, f) == ip
            &&& s.subrange(f + 1, g) == pot
            &&& s[b] == ' ' && s[c] == ' ' && s[d] == ' ' && s[e] == ' ' && s[f] == ' ' && s[g] == ' '
            &&& s.subrange(g + 1, g + 4) == lit_typ()
            &&& s[g + 4] == ' '
            &&& s.subrange(g + 5, g + 10) == lit_srflx()
        }),
    ensures
        ({
            let a = n + 10;
            let b = a + fnd.len();
            let c = b + 1 + ct.len();
            let d = c + 4;
            let e = d + 1 + pt.len();
            let f = e + 1 + ip.len();
            let g = f + 1 + pot.len();
            match_at(s, n) == Some(
                CandidateFields {
                    foundation: (a, b),
                    component: (b + 1, c),
                    transport,
                    priority: (d + 1, e),
                    ip: (e + 1, f),
                    port: (f + 1, g),
                    kind: KindTag::Srflx,
                    kind_start: g + 5,
                    end: g + 10,
                },
            )
        }),
{
    let a = n + 10;
    let b = a + fnd.len();
    let c = b + 1 + ct.len();
    let d = c + 4;
    let e = d + 1 + pt.len();
    let f = e + 1 + ip.len();
    let g = f + 1 + pot.len();
    lemma_piece_chars(s, a, fnd);
    lemma_piece_chars(s, b + 1, ct);
    lemma_piece_chars(s, d + 1, pt);
    lemma_piece_chars(s, e + 1, ip);
    lemma_piece_chars(s, f + 1, pot);
    assert(is_space(' '));
    assert forall|k: int| a <= k < b implies is_digit(s[k]) by {
        assert(s[k] == fnd[k - a]);
    }
    assert forall|k: int| b + 1 <= k < c implies is_digit(s[k]) by {
        assert(s[k] == ct[k - (b + 1)]);
    }
    assert forall|k: int| d + 1 <= k < e implies is_digit(s[k]) by {
        assert(s[k] == pt[k - (d + 1)]);
    }
    assert forall|k: int| e + 1 <= k < f implies CharClass::HostChar.holds(s[k]) by {
        assert(s[k] == ip[k - (e + 1)]);
    }
    assert forall|k: int| f + 1 <= k < g implies is_digit(s[k]) by {
        assert(s[k] == pot[k - (f + 1)]);
    }
    lemma_run_end_exact(s, a, b, CharClass::Digit);
    lemma_run_end_exact(s, b + 1, c, CharClass::Digit);
    lemma_run_end_exact(s, d + 1, e, CharClass::Digit);
    lemma_run_end_exact(s, e + 1, f, CharClass::HostChar);
    lemma_run_end_exact(s, f + 1, g, CharClass::Digit);
    assert(s.subrange(c + 1, d)[0] == s[c + 1]);
    assert(s.subrange(c + 1, d)[1] == s[c + 2]);
    assert(s.subrange(c + 1, d)[2] == s[c + 3]);
    assert(transport_at(s, c + 1) == Some(transport));
    assert(!occurs_at(s, lit_host(), g + 5)) by {
        assert(s.subrange(g + 5, g + 10)[1] == s[g + 6]);
        if occurs_at(s, lit_host(), g + 5) {
            assert(s.subrange(g + 5, g + 9)[1] == s[g + 6]);
        }
    }
    assert(kind_at(s, g + 5) == Some(KindTag::Srflx));
}

/// The head of `pre` + a server reflexive line: the leftmost candidate
/// attribute starts after `pre`, and its fields are those of `v`.
#[verifier::rlimit(100)]
proof fn lemma_srflx_head(pre: Seq<char>, v: CandidateView, t: Seq<char>, raddr: Seq<char>, rport: u16)
    requires
        t.len() == 3,
        transport_text(v.transport) == Some(t),
        v.foundation.len() > 0,
        forall|k: int| 0 <= k < v.foundation.len() ==> is_digit(#[trigger] v.foundation[k]),
        v.ip.len() > 0,
        forall|k: int| 0 <= k < v.ip.len() ==> CharClass::HostChar.holds(#[trigger] v.ip[k]),
        forall|k: int| 0 <= k < pre.len() ==> pre[k] != 'c',
    ensures
        ({
            let s = pre + srflx_line(v, raddr, rport);
            let o = pre.len() + head_end(v) + 5;
            &&& first_match(s, 0) is Some
            &&& first_match(s, 0).unwrap().kind == KindTag::Srflx
            &&& first_match(s, 0).unwrap().end == o + 5
            &&& first_match(s, 0).unwrap().transport == v.transport
            &&& field(s, first_match(s, 0).unwrap().foundation) == v.foundation
            &&& field(s, first_match(s, 0).unwrap().component) == decimal_text(v.component as nat)
            &&& field(s, first_match(s, 0).unwrap().priority) == decimal_text(v.priority as nat)
            &&& field(s, first_match(s, 0).unwrap().ip) == v.ip
            &&& field(s, first_match(s, 0).unwrap().port) == decimal_text(v.port as nat)
        }),
{
    let s = pre + srflx_line(v, raddr, rport);
    let h = lit_candidate() + line_rest(v, t, 0);
    let n = pre.len() as int;
    lemma_srflx_split(pre, v, t, raddr, rport);
    lemma_line_layout(v, t);
    lemma_decimal_text(v.component as nat);
    lemma_decimal_text(v.priority as nat);
    lemma_decimal_text(v.port as nat);
    let o = n + head_end(v) + 5;
    lemma_srflx_words_at(s, o, raddr, rport);
    let ct = decimal_text(v.component as nat);
    let pt = decimal_text(v.priority as nat);
    let pot = decimal_text(v.port as nat);
    let a0: int = 10;
    let b0: int = a0 + v.foundation.len() as int;
    let c0: int = b0 + 1 + ct.len();
    let d0: int = c0 + 4;
    let e0: int = d0 + 1 + pt.len();
    let f0: int = e0 + 1 + v.ip.len();
    let g0: int = f0 + 1 + pot.len();
    assert(g0 == head_end(v));
    let m0 = g0 + 5;
    assert(h.subrange(g0 + 1, g0 + 4) =~= lit_typ()) by {
        lemma_piece_chars(h, g0, lit_typ_host_suffix());
    }
    assert(h[g0 + 4] == ' ') by {
        lemma_piece_chars(h, g0, lit_typ_host_suffix());
    }
    lemma_shifted_piece(s, n, h, m0, 0, 10, lit_candidate());
    lemma_shifted_piece(s, n, h, m0, a0, b0, v.foundation);
    lemma_shifted_piece(s, n, h, m0, b0 + 1, c0, ct);
    lemma_shifted_piece(s, n, h, m0, c0 + 1, c0 + 4, t);
    lemma_shifted_piece(s, n, h, m0, d0 + 1, e0, pt);
    lemma_shifted_piece(s, n, h, m0, e0 + 1, f0, v.ip);
    lemma_shifted_piece(s, n, h, m0, f0 + 1, g0, pot);
    lemma_shifted_piece(s, n, h, m0, g0 + 1, g0 + 4, lit_typ());
    assert(h[b0] == s[n + b0]);
    assert(h[c0] == s[n + c0]);
    assert(h[d0] == s[n + d0]);
    assert(h[e0] == s[n + e0]);
    assert(h[f0] == s[n + f0]);
    assert(h[g0] == s[n + g0]);
    assert(h[g0 + 4] == s[n + g0 + 4]);
    lemma_match_at_srflx(s, n, v.foundation, ct, t, pt, v.ip, pot, v.transport);
    assert forall|k: int| 0 <= k < n implies s[k] != 'c' by {
        assert(s[k] == pre[k]);
    }
    lemma_first_match_from(s, 0, n);
    assert(first_match(s, n) == match_at(s, n));
}

/// The tail of `pre` + a server reflexive line: its related address and port.
#[verifier::rlimit(50)]
proof fn lemma_srflx_tail(pre: Seq<char>, v: CandidateView, t: Seq<char>, raddr: Seq<char>, rport: u16)
    requires
        t.len() == 3,
        transport_text(v.transport) == Some(t),
        raddr.len() > 0,
        forall|k: int| 0 <= k < raddr.len() ==> CharClass::DigitOrDot.holds(#[trigger] raddr[k]),
    ensures
        ({
            let s = pre + srflx_line(v, raddr, rport);
            let o = pre.len() + head_end(v) + 5;
            let r = raddr.len() as int;
            &&& tail_fields(s, o + 5) == (Some((o + 12, o + 12 + r)), Some((o + 19 + r, s.len() as int)))
            &&& field(s, (o + 12, o + 12 + r)) == raddr
            &&& field(s, (o + 19 + r, s.len() as int)) == decimal_text(rport as nat)
        }),
{
    let s = pre + srflx_line(v, raddr, rport);
    let n = pre.len() as int;
    lemma_srflx_split(pre, v, t, raddr, rport);
    let o = n + head_end(v) + 5;
    lemma_srflx_words_at(s, o, raddr, rport);
    let r = raddr.len() as int;
    let q = decimal_text(rport as nat);
    lemma_decimal_text(rport as nat);
    lemma_piece_chars(s, o + 6, lit_raddr());
    lemma_piece_chars(s, o + 13 + r, lit_rport());
    lemma_piece_chars(s, o + 12, raddr);
    lemma_piece_chars(s, o + 19 + r, q);
    assert(is_space(' '));
    // `srflx`, then one space, then `raddr`
    assert(s[o + 6] == 'r');
    lemma_run_end_exact(s, o + 5, o + 6, CharClass::Space);
    assert(occurs_at(s, lit_raddr(), o + 6));
    assert(!occurs_at(s, lit_raddr(), o + 11) && !occurs_at(s, lit_tcptype(), o + 11)) by {
        if occurs_at(s, lit_raddr(), o + 11) {
            assert(s.subrange(o + 11, o + 16)[0] == s[o + 11]);
        }
        if occurs_at(s, lit_tcptype(), o + 11) {
            assert(s.subrange(o + 11, o + 18)[0] == s[o + 11]);
        }
    }
    assert(skip_words(s, o + 11) == o + 11);
    assert(skip_words(s, o + 6) == o + 11);
    // the related address
    assert(s[o + 12] == raddr[0]);
    lemma_run_end_exact(s, o + 11, o + 12, CharClass::Space);
    assert forall|k: int| o + 12 <= k < o + 12 + r implies CharClass::DigitOrDot.holds(s[k]) by {
        assert(s[k] == raddr[k - (o + 12)]);
    }
    lemma_run_end_exact(s, o + 12, o + 12 + r, CharClass::DigitOrDot);
    assert(addr_runs(s, o + 12 + r, Some((o + 12, o + 12 + r))) == (o + 12 + r, Some((o + 12, o + 12 + r))));
    assert(addr_runs(s, o + 12, None) == (o + 12 + r, Some((o + 12, o + 12 + r))));
    // one space, then `rport`
    assert(s[o + 13 + r] == 'r');
    lemma_run_end_exact(s, o + 12 + r, o + 13 + r, CharClass::Space);
    assert(occurs_at(s, lit_rport(), o + 13 + r));
    assert(!occurs_at(s, lit_rport(), o + 18 + r)) by {
        if occurs_at(s, lit_rport(), o + 18 + r) {
            assert(s.subrange(o + 18 + r, o + 23 + r)[0] == s[o + 18 + r]);
        }
    }
    assert(skip_rport(s, o + 18 + r) == o + 18 + r);
    assert(skip_rport(s, o + 13 + r) == o + 18 + r);
    // the related port
    assert(s[o + 19 + r] == q[0]);
    lemma_run_end_exact(s, o + 18 + r, o + 19 + r, CharClass::Space);
    assert forall|k: int| o + 19 + r <= k < s.len() implies CharClass::Digit.holds(s[k]) by {
        assert(s[k] == q[k - (o + 19 + r)]);
    }
    lemma_run_end_exact(s, o + 19 + r, s.len() as int, CharClass::Digit);
}

/// A server reflexive candidate line
/// `candidate:FOUNDATION COMPONENT TRANSPORT PRIORITY ADDRESS PORT typ srflx raddr RADDR rport RPORT`,
/// after any text without a `c`, reads as the candidate whose address is
/// ADDRESS, the one after the priority, and whose type is server reflexive
/// with the related address RADDR and port RPORT. This holds where the
/// foundation is a run of digits, ADDRESS a run of `a-z0-9.-`, and RADDR a
/// run of `0-9.`.
pub proof fn law_srflx_line_reads_back(pre: Seq<char>, v: CandidateView, raddr: Seq<char>, rport: u16)
    requires
        forall|k: int| 0 <= k < pre.len() ==> pre[k] != 'c',
        v.foundation.len() > 0,
        forall|k: int| 0 <= k < v.foundation.len() ==> is_digit(#[trigger] v.foundation[k]),
        v.ip.len() > 0,
        forall|k: int| 0 <= k < v.ip.len() ==> CharClass::HostChar.holds(#[trigger] v.ip[k]),
        v.transport != Transport::Invalid,
        raddr.len() > 0,
        forall|k: int| 0 <= k < raddr.len() ==> CharClass::DigitOrDot.holds(#[trigger] raddr[k]),
    ensures
        candidate_outcome(pre + srflx_line(v, raddr, rport)) == CandidateOutcome::Parsed(
            CandidateView {
                foundation: v.foundation,
                component: v.component,
                transport: v.transport,
                priority: v.priority,
                ip: v.ip,
                port: v.port,
                typ: CandidateTypeView::ServerReflexive(raddr, rport),
            },
        ),
{
    let t = transport_text(v.transport).unwrap();
    let s = pre + srflx_line(v, raddr, rport);
    lemma_srflx_head(pre, v, t, raddr, rport);
    lemma_srflx_tail(pre, v, t, raddr, rport);
    lemma_decimal_text(v.component as nat);
    lemma_decimal_text(v.priority as nat);
    lemma_decimal_text(v.port as nat);
    lemma_decimal_text(rport as nat);
    let m = first_match(s, 0).unwrap();
    assert(typ_outcome(s, m) == Ok::<CandidateTypeView, CandidateOutcome>(
        CandidateTypeView::ServerReflexive(raddr, rport),
    ));
}

/// The pieces `k..` of a written candidate line hold no carriage return.
proof fn lemma_line_rest_no_cr(v: CandidateView, t: Seq<char>, k: int)
    requires
        0 <= k,
        forall|i: int| 0 <= i < v.foundation.len() ==> is_digit(#[trigger] v.foundation[i]),
        forall|i: int| 0 <= i < v.ip.len() ==> CharClass::HostChar.holds(#[trigger] v.ip[i]),
        forall|i: int| 0 <= i < t.len() ==> #[trigger] t[i] != '\r',
    ensures
        forall|i: int| 0 <= i < line_rest(v, t, k).len() ==> #[trigger] line_rest(v, t, k)[i] != '\r',
    decreases 11 - k,
{
    reveal(line_rest);
    if k < 11 {
        lemma_line_rest_no_cr(v, t, k + 1);
        let p = line_piece(v, t, k);
        lemma_decimal_text(v.component as nat);
        lemma_decimal_text(v.priority as nat);
        lemma_decimal_text(v.port as nat);
        assert forall|i: int| 0 <= i < p.len() implies #[trigger] p[i] != '\r' by {
            if k == 0 {
                assert(is_digit(v.foundation[i]));
            } else if k == 8 {
                assert(CharClass::HostChar.holds(v.ip[i]));
            } else if k == 2 {
                assert(is_digit(decimal_text(v.component as nat)[i]));
            } else if k == 6 {
                assert(is_digit(decimal_text(v.priority as nat)[i]));
            } else if k == 10 {
                assert(is_digit(decimal_text(v.port as nat)[i]));
            }
        }
        let rest = line_rest(v, t, k + 1);
        assert(line_rest(v, t, k) == p + rest);
        assert forall|i: int| 0 <= i < (p + rest).len() implies #[trigger] (p + rest)[i] != '\r' by {
            if i >= p.len() {
                assert((p + rest)[i] == rest[i - p.len()]);
            }
        }
    }
}

/// A server reflexive candidate line holds no carriage return, where its
/// foundation is digits, its address `a-z0-9.-` and its related address
/// `0-9.`.
pub proof fn lemma_srflx_line_no_cr(v: CandidateView, raddr: Seq<char>, rport: u16)
    requires
        forall|k: int| 0 <= k < v.foundation.len() ==> is_digit(#[trigger] v.foundation[k]),
        forall|k: int| 0 <= k < v.ip.len() ==> CharClass::HostChar.holds(#[trigger] v.ip[k]),
        v.transport != Transport::Invalid,
        forall|k: int| 0 <= k < raddr.len() ==> CharClass::DigitOrDot.holds(#[trigger] raddr[k]),
    ensures
        forall|k: int| 0 <= k < srflx_line(v, raddr, rport).len() ==> #[trigger] srflx_line(v, raddr, rport)[k] != '\r',
{
    reveal(srflx_line);
    let t = transport_text(v.transport).unwrap();
    lemma_line_rest_no_cr(v, t, 0);
    let h = lit_candidate() + line_rest(v, t, 0);
    assert(candidate_line(v) == Some(h));
    let hr = line_rest(v, t, 0);
    assert forall|k: int| 0 <= k < h.len() implies #[trigger] h[k] != '\r' by {
        if k >= 10 {
            assert(h[k] == hr[k - 10]);
        }
    }
    let hp = h.subrange(0, h.len() - 4);
    let w = srflx_words(raddr, rport);
    let q = decimal_text(rport as nat);
    lemma_decimal_text(rport as nat);
    let wr = lit_srflx() + (seq![' '] + (lit_raddr() + (seq![' '] + (raddr + (seq![' '] + (
    lit_rport() + (seq![' '] + q)))))));
    assert(w =~= wr);
    let r = raddr.len() as int;
    assert forall|k: int| 0 <= k < w.len() implies #[trigger] w[k] != '\r' by {
        if 12 <= k < 12 + r {
            assert(w[k] == raddr[k - 12]);
        } else if k >= 19 + r {
            assert(w[k] == q[k - 19 - r]);
        }
    }
    assert forall|k: int| 0 <= k < (hp + w).len() implies #[trigger] (hp + w)[k] != '\r' by {
        if k < hp.len() {
            assert((hp + w)[k] == h[k]);
        } else {
            assert((hp + w)[k] == w[k - hp.len()]);
        }
    }
}

} // verus!
