//! Session descriptions: reading the ICE credentials out of an answer, and
//! writing the offer that carries ours.
use vstd::prelude::*;

use crate::candidate::{
    candidate_line, candidate_outcome, lemma_srflx_line_no_cr, law_srflx_line_reads_back, srflx_line,
    try_parse_candidate, CandidateOutcome, CandidateView, ParsedIceCandidate,
};
use crate::candidate_type::CandidateTypeView;
use crate::text::{
    chars_of, contains, contains_exec, is_digit, lemma_run_end_exact, occurs_at, occurs_at_exec, run_end,
    scan_run, CharClass,
};
use crate::transport::Transport;

pub use crate::candidate::parse_candidate;

verus! {

/// The ICE credentials of a session description.
#[derive(Debug)]
pub struct Sdp {
    pub ufrag: String,
    pub pwd: String,
}

/// The credentials with their strings taken as character sequences.
pub struct SdpView {
    pub ufrag: Seq<char>,
    pub pwd: Seq<char>,
}

impl View for Sdp {
    type V = SdpView;

    open spec fn view(&self) -> SdpView {
        SdpView { ufrag: self.ufrag@, pwd: self.pwd@ }
    }
}

impl Default for Sdp {
    fn default() -> (r: Sdp)
        ensures
            r@.ufrag == Seq::<char>::empty(),
            r@.pwd == Seq::<char>::empty(),
    {
        Sdp { ufrag: String::new(), pwd: String::new() }
    }
}

pub open spec fn lit_ice_ufrag() -> Seq<char> {
    seq!['i', 'c', 'e', '-', 'u', 'f', 'r', 'a', 'g']
}

pub open spec fn lit_ice_pwd() -> Seq<char> {
    seq!['i', 'c', 'e', '-', 'p', 'w', 'd']
}

pub open spec fn lit_candidate_word() -> Seq<char> {
    seq!['c', 'a', 'n', 'd', 'i', 'd', 'a', 't', 'e']
}

/// `a=ice-ufrag:`
pub open spec fn key_ufrag() -> Seq<char> {
    seq!['a', '=', 'i', 'c', 'e', '-', 'u', 'f', 'r', 'a', 'g', ':']
}

/// `a=ice-pwd:`
pub open spec fn key_pwd() -> Seq<char> {
    seq!['a', '=', 'i', 'c', 'e', '-', 'p', 'w', 'd', ':']
}

/// The leftmost place at or after `i` where `key` is followed by a character
/// of `a-z0-9`; gives the longest run of such characters after the key.
pub open spec fn capture_from(s: Seq<char>, key: Seq<char>, i: int) -> Option<(int, int)>
    decreases s.len() - i,
{
    if i < 0 || i >= s.len() {
        None
    } else if occurs_at(s, key, i) && i + key.len() < s.len() && CharClass::LowerAlnum.holds(
        s[i + key.len()],
    ) {
        Some((i + key.len(), run_end(s, i + key.len(), CharClass::LowerAlnum)))
    } else {
        capture_from(s, key, i + 1)
    }
}

/// The value written after `key` in `line`: the text that the pattern
/// `KEY([a-z0-9]+)` captures at its leftmost match.
pub open spec fn key_capture(line: Seq<char>, key: Seq<char>) -> Option<Seq<char>> {
    match capture_from(line, key, 0) {
        Some(r) => Some(line.subrange(r.0, r.1)),
        None => None,
    }
}

/// Whether a line can be read: a line that names `ice-ufrag` must hold
/// `a=ice-ufrag:` and a value, else one that names `ice-pwd` must hold
/// `a=ice-pwd:` and a value, else one that names `candidate` must hold a
/// candidate attribute.
pub open spec fn line_ok(line: Seq<char>) -> bool {
    if contains(line, lit_ice_ufrag()) {
        key_capture(line, key_ufrag()) is Some
    } else if contains(line, lit_ice_pwd()) {
        key_capture(line, key_pwd()) is Some
    } else if contains(line, lit_candidate_word()) {
        candidate_outcome(line) is Parsed
    } else {
        true
    }
}

/// The credentials after reading one line.
pub open spec fn apply_line(acc: SdpView, line: Seq<char>) -> SdpView {
    if contains(line, lit_ice_ufrag()) {
        match key_capture(line, key_ufrag()) {
            Some(v) => SdpView { ufrag: v, pwd: acc.pwd },
            None => acc,
        }
    } else if contains(line, lit_ice_pwd()) {
        match key_capture(line, key_pwd()) {
            Some(v) => SdpView { ufrag: acc.ufrag, pwd: v },
            None => acc,
        }
    } else {
        acc
    }
}

/// `\r\n` stands at `k`.
pub open spec fn crlf_at(s: Seq<char>, k: int) -> bool {
    0 <= k && k + 1 < s.len() && s[k] == '\r' && s[k + 1] == '\n'
}

/// Where the line that starts at `i` ends: the first `\r\n` at or after `i`,
/// or the end of the text.
pub open spec fn line_end(s: Seq<char>, i: int) -> int
    decreases s.len() - i,
{
    if i < 0 || i >= s.len() {
        s.len() as int
    } else if crlf_at(s, i) {
        i
    } else {
        line_end(s, i + 1)
    }
}

pub proof fn lemma_line_end(s: Seq<char>, i: int)
    requires
        0 <= i <= s.len(),
    ensures
        i <= line_end(s, i) <= s.len(),
        line_end(s, i) < s.len() ==> crlf_at(s, line_end(s, i)),
        forall|k: int| i <= k < line_end(s, i) ==> !crlf_at(s, k),
    decreases s.len() - i,
{
    if i < s.len() && !crlf_at(s, i) {
        lemma_line_end(s, i + 1);
    }
}

/// The lines of `s` from `i` on, split at each `\r\n`: the pieces that
/// `str::split("\r\n")` gives.
pub open spec fn lines_from(s: Seq<char>, i: int) -> Seq<Seq<char>>
    decreases s.len() - i,
{
    if i < 0 || i > s.len() {
        Seq::empty()
    } else {
        let k = line_end(s, i);
        proof {
            lemma_line_end(s, i);
        }
        if k < s.len() {
            seq![s.subrange(i, k)] + lines_from(s, k + 2)
        } else {
            seq![s.subrange(i, s.len() as int)]
        }
    }
}

/// Reads `lines` in order into `acc`; `None` when one cannot be read.
pub open spec fn read_lines(acc: SdpView, lines: Seq<Seq<char>>) -> Option<SdpView>
    decreases lines.len(),
{
    if lines.len() == 0 {
        Some(acc)
    } else if !line_ok(lines[0]) {
        None
    } else {
        read_lines(apply_line(acc, lines[0]), lines.drop_first())
    }
}

/// The credentials that a session description gives, line by line: the value
/// of the last `a=ice-ufrag:` line and of the last `a=ice-pwd:` line, each
/// empty when there is none; `None` when a line cannot be read (see
/// `line_ok`).
pub open spec fn sdp_of_text(s: Seq<char>) -> Option<SdpView> {
    read_lines(SdpView { ufrag: Seq::empty(), pwd: Seq::empty() }, lines_from(s, 0))
}

/// Reads `lines` in order into `acc`, passing over the lines that give no
/// credential, those that cannot be read among them.
pub open spec fn read_credentials(acc: SdpView, lines: Seq<Seq<char>>) -> SdpView
    decreases lines.len(),
{
    if lines.len() == 0 {
        acc
    } else {
        read_credentials(apply_line(acc, lines[0]), lines.drop_first())
    }
}

/// The credentials of a session description: the value of the last readable
/// `a=ice-ufrag:` line and of the last readable `a=ice-pwd:` line, each empty
/// when there is none. Other lines, such as `a=end-of-candidates`, give
/// nothing.
pub open spec fn credentials_of_text(s: Seq<char>) -> SdpView {
    read_credentials(SdpView { ufrag: Seq::empty(), pwd: Seq::empty() }, lines_from(s, 0))
}

/// Where every line can be read, reading them gives the credentials.
pub proof fn lemma_read_lines_credentials(acc: SdpView, lines: Seq<Seq<char>>)
    requires
        read_lines(acc, lines) is Some,
    ensures
        read_lines(acc, lines).unwrap() == read_credentials(acc, lines),
    decreases lines.len(),
{
    if lines.len() > 0 {
        lemma_read_lines_credentials(apply_line(acc, lines[0]), lines.drop_first());
    }
}

fn ice_ufrag_vec() -> (v: Vec<char>)
    ensures
        v@ == lit_ice_ufrag(),
{
    vec!['i', 'c', 'e', '-', 'u', 'f', 'r', 'a', 'g']
}

fn ice_pwd_vec() -> (v: Vec<char>)
    ensures
        v@ == lit_ice_pwd(),
{
    vec!['i', 'c', 'e', '-', 'p', 'w', 'd']
}

fn candidate_word_vec() -> (v: Vec<char>)
    ensures
        v@ == lit_candidate_word(),
{
    vec!['c', 'a', 'n', 'd', 'i', 'd', 'a', 't', 'e']
}

fn key_ufrag_vec() -> (v: Vec<char>)
    ensures
        v@ == key_ufrag(),
{
    vec!['a', '=', 'i', 'c', 'e', '-', 'u', 'f', 'r', 'a', 'g', ':']
}

fn key_pwd_vec() -> (v: Vec<char>)
    ensures
        v@ == key_pwd(),
{
    vec!['a', '=', 'i', 'c', 'e', '-', 'p', 'w', 'd', ':']
}

/// Finds the value after `key` in `line` (see `key_capture`).
fn capture_exec(line: &str, s: &Vec<char>, key: &Vec<char>) -> (r: Option<String>)
    requires
        s@ == line@,
    ensures
        r is Some <==> key_capture(line@, key@) is Some,
        r matches Some(v) ==> v@ == key_capture(line@, key@).unwrap(),
{
    let mut i: usize = 0;
    while i < s.len()
        invariant
            i <= s.len(),
            s@ == line@,
            capture_from(s@, key@, 0) == capture_from(s@, key@, i as int),
        decreases s.len() - i,
    {
        if occurs_at_exec(s, key, i) && key.len() < s.len() - i && CharClass::LowerAlnum.test(
            s[i + key.len()],
        ) {
            let a = i + key.len();
            let b = scan_run(s, a, CharClass::LowerAlnum);
            return Some(line.substring_char(a, b).to_owned());
        }
        i = i + 1;
    }
    None
}

/// Where the line of `s` that starts at `i` ends.
fn line_end_exec(s: &Vec<char>, i: usize) -> (k: usize)
    requires
        i <= s.len(),
    ensures
        k == line_end(s@, i as int),
        i <= k <= s.len(),
{
    let mut k = i;
    while k < s.len() && !(s[k] == '\r' && k + 1 < s.len() && s[k + 1] == '\n')
        invariant
            i <= k <= s.len(),
            line_end(s@, k as int) == line_end(s@, i as int),
        decreases s.len() - k,
    {
        k = k + 1;
    }
    k
}

/// Reads one line into `sdp`. With `check`, also tells whether the line can be
/// read (a candidate line is then parsed); without, gives `true`.
fn read_line(sdp: &mut Sdp, line: &str, check: bool) -> (ok: bool)
    ensures
        check ==> ok == line_ok(line@),
        final(sdp)@ == apply_line(old(sdp)@, line@),
{
    let s = chars_of(line);
    if contains_exec(&s, &ice_ufrag_vec()) {
        match capture_exec(line, &s, &key_ufrag_vec()) {
            Some(v) => {
                sdp.ufrag = v;
                true
            },
            None => false,
        }
    } else if contains_exec(&s, &ice_pwd_vec()) {
        match capture_exec(line, &s, &key_pwd_vec()) {
            Some(v) => {
                sdp.pwd = v;
                true
            },
            None => false,
        }
    } else if check && contains_exec(&s, &candidate_word_vec()) {
        match try_parse_candidate(line) {
            Some(Ok(_)) => true,
            _ => false,
        }
    } else {
        true
    }
}

impl Sdp {
    /// Reads the ICE credentials of a session description; `None` exactly
    /// where a line cannot be read (see `sdp_of_text`).
    pub fn try_parse(raw: &str) -> (r: Option<Sdp>)
        ensures
            r is Some <==> sdp_of_text(raw@) is Some,
            r matches Some(sdp) ==> sdp@ == sdp_of_text(raw@).unwrap() && sdp@ == credentials_of_text(
                raw@,
            ),
    {
        let r = Sdp::read_checked(raw);
        proof {
            if r is Some {
                lemma_read_lines_credentials(
                    SdpView { ufrag: Seq::empty(), pwd: Seq::empty() },
                    lines_from(raw@, 0),
                );
            }
        }
        r
    }

    fn read_checked(raw: &str) -> (r: Option<Sdp>)
        ensures
            r is Some <==> sdp_of_text(raw@) is Some,
            r matches Some(sdp) ==> sdp@ == sdp_of_text(raw@).unwrap(),
    {
        let s = chars_of(raw);
        let mut sdp = Sdp::default();
        let mut start: usize = 0;
        loop
            invariant
                start <= s.len(),
                s@ == raw@,
                read_lines(sdp@, lines_from(s@, start as int)) == sdp_of_text(s@),
            decreases s.len() - start,
        {
            let k = line_end_exec(&s, start);
            proof {
                lemma_line_end(s@, start as int);
            }
            let ghost lines = lines_from(s@, start as int);
            let line = raw.substring_char(start, k);
            if !read_line(&mut sdp, line, true) {
                return None;
            }
            if k >= s.len() {
                assert(lines =~= seq![s@.subrange(start as int, s@.len() as int)]);
                assert(lines.drop_first() =~= Seq::<Seq<char>>::empty());
                assert(read_lines(sdp@, Seq::<Seq<char>>::empty()) == Some(sdp@));
                return Some(sdp);
            }
            assert(lines =~= seq![s@.subrange(start as int, k as int)] + lines_from(s@, k + 2));
            assert(lines.drop_first() =~= lines_from(s@, k + 2));
            start = k + 2;
        }
    }

    /// Reads the ICE credentials of a session description, passing over the
    /// lines that give none, those that cannot be read among them (see
    /// `credentials_of_text`).
    pub fn credentials(raw: &str) -> (r: Sdp)
        ensures
            r@ == credentials_of_text(raw@),
    {
        let s = chars_of(raw);
        let mut sdp = Sdp::default();
        let mut start: usize = 0;
        loop
            invariant
                start <= s.len(),
                s@ == raw@,
                read_credentials(sdp@, lines_from(s@, start as int)) == credentials_of_text(s@),
            decreases s.len() - start,
        {
            let k = line_end_exec(&s, start);
            proof {
                lemma_line_end(s@, start as int);
            }
            let ghost lines = lines_from(s@, start as int);
            let line = raw.substring_char(start, k);
            read_line(&mut sdp, line, false);
            if k >= s.len() {
                assert(lines =~= seq![s@.subrange(start as int, s@.len() as int)]);
                assert(lines.drop_first() =~= Seq::<Seq<char>>::empty());
                assert(read_credentials(sdp@, Seq::<Seq<char>>::empty()) == sdp@);
                return sdp;
            }
            assert(lines =~= seq![s@.subrange(start as int, k as int)] + lines_from(s@, k + 2));
            assert(lines.drop_first() =~= lines_from(s@, k + 2));
            start = k + 2;
        }
    }

    /// Reads the ICE credentials of a session description whose every line
    /// can be read.
    pub fn from(raw: &str) -> (r: Sdp)
        requires
            sdp_of_text(raw@) is Some,
        ensures
            r@ == sdp_of_text(raw@).unwrap(),
    {
        match Sdp::try_parse(raw) {
            Some(sdp) => sdp,
            None => Sdp::default(),
        }
    }
}


// ---------------------------------------------------------------------------
// Reading back written credentials

/// The text has no carriage return.
pub open spec fn no_cr(s: Seq<char>) -> bool {
    forall|k: int| 0 <= k < s.len() ==> s[k] != '\r'
}

/// A value of lower-case letters and digits.
pub open spec fn is_credential(v: Seq<char>) -> bool {
    v.len() > 0 && forall|k: int| 0 <= k < v.len() ==> CharClass::LowerAlnum.holds(#[trigger] v[k])
}

proof fn lemma_line_end_at(s: Seq<char>, i: int, j: int)
    requires
        0 <= i <= j <= s.len(),
        forall|k: int| i <= k < j ==> s[k] != '\r',
        j == s.len() || crlf_at(s, j),
    ensures
        line_end(s, i) == j,
    decreases j - i,
{
    if i < j {
        lemma_line_end_at(s, i + 1, j);
    }
}

/// A line `key + v` names `key` at 0 and its value is `v`.
proof fn lemma_key_line(key: Seq<char>, v: Seq<char>)
    requires
        is_credential(v),
    ensures
        occurs_at(key + v, key, 0),
        key_capture(key + v, key) == Some(v),
{
    let line = key + v;
    assert(line.subrange(0, key.len() as int) =~= key);
    assert forall|k: int| key.len() <= k < line.len() implies CharClass::LowerAlnum.holds(
        line[k],
    ) by {
        assert(line[k] == v[k - key.len()]);
    }
    lemma_run_end_exact(line, key.len() as int, line.len() as int, CharClass::LowerAlnum);
    assert(line[key.len() as int] == v[0]);
    assert(line.subrange(key.len() as int, line.len() as int) =~= v);
}

/// `a=ice-pwd:` and a value name neither `ice-ufrag` nor `candidate`.
proof fn lemma_pwd_line_names(v: Seq<char>)
    requires
        is_credential(v),
    ensures
        !contains(key_pwd() + v, lit_ice_ufrag()),
        contains(key_pwd() + v, lit_ice_pwd()),
{
    let line = key_pwd() + v;
    assert forall|j: int| !occurs_at(line, lit_ice_ufrag(), j) by {
        if occurs_at(line, lit_ice_ufrag(), j) {
            assert(line.subrange(j, j + 9)[3] == '-');
            assert(line[j + 3] == '-');
            if j + 3 >= 10 {
                assert(line[j + 3] == v[j + 3 - 10]);
            }
            assert(j == 2);
            assert(line.subrange(j, j + 9)[4] == 'u');
        }
    }
    assert(line.subrange(2, 9) =~= lit_ice_pwd());
    assert(occurs_at(line, lit_ice_pwd(), 2));
}

proof fn lemma_ufrag_line_names(v: Seq<char>)
    requires
        is_credential(v),
    ensures
        contains(key_ufrag() + v, lit_ice_ufrag()),
{
    let line = key_ufrag() + v;
    assert(line.subrange(2, 11) =~= lit_ice_ufrag());
    assert(occurs_at(line, lit_ice_ufrag(), 2));
}

/// Two lines without carriage returns, each ended by `\r\n`, split into those
/// lines and the empty rest.
proof fn lemma_two_lines(a: Seq<char>, b: Seq<char>)
    requires
        no_cr(a),
        no_cr(b),
    ensures
        lines_from(a + seq!['\r', '\n'] + b + seq!['\r', '\n'], 0) == seq![a, b, Seq::<char>::empty()],
{
    let crlf = seq!['\r', '\n'];
    let text = a + crlf + b + crlf;
    let na = a.len() as int;
    let nb = b.len() as int;
    assert(text.len() == na + nb + 4);
    assert forall|k: int| 0 <= k < na implies text[k] != '\r' by {
        assert(text[k] == a[k]);
    }
    assert forall|k: int| na + 2 <= k < na + 2 + nb implies text[k] != '\r' by {
        assert(text[k] == b[k - (na + 2)]);
    }
    assert(text[na] == '\r' && text[na + 1] == '\n');
    assert(text[na + 2 + nb] == '\r' && text[na + 3 + nb] == '\n');
    lemma_line_end_at(text, 0, na);
    lemma_line_end_at(text, na + 2, na + 2 + nb);
    lemma_line_end_at(text, na + nb + 4, na + nb + 4);
    assert(text.subrange(0, na) =~= a);
    assert(text.subrange(na + 2, na + 2 + nb) =~= b);
    let empty = Seq::<char>::empty();
    assert(text.subrange(na + nb + 4, text.len() as int) =~= empty);
    assert(lines_from(text, na + nb + 4) == seq![empty]);
    assert(lines_from(text, na + 2) =~= seq![b] + seq![empty]);
    assert(lines_from(text, 0) =~= seq![a] + (seq![b] + seq![empty]));
    assert(lines_from(text, 0) =~= seq![a, b, empty]);
}

/// The credential lines read as their values.
proof fn lemma_read_credential_lines(ufrag: Seq<char>, pwd: Seq<char>)
    requires
        is_credential(ufrag),
        is_credential(pwd),
    ensures
        read_lines(
            SdpView { ufrag: Seq::empty(), pwd: Seq::empty() },
            seq![key_pwd() + pwd, key_ufrag() + ufrag, Seq::<char>::empty()],
        ) == Some(SdpView { ufrag, pwd }),
{
    let a = key_pwd() + pwd;
    let b = key_ufrag() + ufrag;
    let empty = Seq::<char>::empty();
    lemma_pwd_line_names(pwd);
    lemma_ufrag_line_names(ufrag);
    lemma_key_line(key_pwd(), pwd);
    lemma_key_line(key_ufrag(), ufrag);
    assert(!contains(empty, lit_ice_ufrag()));
    assert(!contains(empty, lit_ice_pwd()));
    assert(!contains(empty, lit_candidate_word()));
    let start = SdpView { ufrag: Seq::empty(), pwd: Seq::empty() };
    let after_a = apply_line(start, a);
    let after_b = apply_line(after_a, b);
    assert(after_a == SdpView { ufrag: Seq::<char>::empty(), pwd });
    assert(after_b == SdpView { ufrag, pwd });
    assert(seq![a, b, empty].drop_first() =~= seq![b, empty]);
    assert(seq![b, empty].drop_first() =~= seq![empty]);
    assert(seq![empty].drop_first() =~= Seq::<Seq<char>>::empty());
    assert(read_lines(after_b, Seq::<Seq<char>>::empty()) == Some(after_b));
    assert(read_lines(after_b, seq![empty]) == Some(after_b));
    assert(read_lines(after_a, seq![b, empty]) == Some(after_b));
}

/// A description of the two lines `a=ice-pwd:PWD` and `a=ice-ufrag:UFRAG`,
/// each ended by `\r\n`, reads as those credentials, when both are runs of
/// `a-z0-9`.
pub proof fn law_credentials_read_back(ufrag: Seq<char>, pwd: Seq<char>)
    requires
        is_credential(ufrag),
        is_credential(pwd),
    ensures
        sdp_of_text(key_pwd() + pwd + seq!['\r', '\n'] + key_ufrag() + ufrag + seq!['\r', '\n'])
            == Some(SdpView { ufrag, pwd }),
{
    let a = key_pwd() + pwd;
    let b = key_ufrag() + ufrag;
    let crlf = seq!['\r', '\n'];
    assert(key_pwd() + pwd + crlf + key_ufrag() + ufrag + crlf =~= a + crlf + b + crlf);
    assert(no_cr(a)) by {
        assert forall|k: int| 0 <= k < a.len() implies a[k] != '\r' by {
            if k >= 10 {
                assert(a[k] == pwd[k - 10]);
            }
        }
    }
    assert(no_cr(b)) by {
        assert forall|k: int| 0 <= k < b.len() implies b[k] != '\r' by {
            if k >= 12 {
                assert(b[k] == ufrag[k - 12]);
            }
        }
    }
    lemma_two_lines(a, b);
    lemma_read_credential_lines(ufrag, pwd);
}

/// Three lines without carriage returns, each ended by `\r\n`, split into
/// those lines and the empty rest.
proof fn lemma_three_lines(a: Seq<char>, b: Seq<char>, c: Seq<char>)
    requires
        no_cr(a),
        no_cr(b),
        no_cr(c),
    ensures
        lines_from(a + seq!['\r', '\n'] + b + seq!['\r', '\n'] + c + seq!['\r', '\n'], 0) == seq![
            a,
            b,
            c,
            Seq::<char>::empty(),
        ],
{
    let crlf = seq!['\r', '\n'];
    let text = a + crlf + b + crlf + c + crlf;
    let na = a.len() as int;
    let nb = b.len() as int;
    let nc = c.len() as int;
    let sb = na + 2;
    let sc = na + nb + 4;
    let se = na + nb + nc + 6;
    assert(text.len() == se);
    assert forall|k: int| 0 <= k < na implies text[k] != '\r' by {
        assert(text[k] == a[k]);
    }
    assert forall|k: int| sb <= k < sb + nb implies text[k] != '\r' by {
        assert(text[k] == b[k - sb]);
    }
    assert forall|k: int| sc <= k < sc + nc implies text[k] != '\r' by {
        assert(text[k] == c[k - sc]);
    }
    assert(text[na] == '\r' && text[na + 1] == '\n');
    assert(text[sb + nb] == '\r' && text[sb + nb + 1] == '\n');
    assert(text[sc + nc] == '\r' && text[sc + nc + 1] == '\n');
    lemma_line_end_at(text, 0, na);
    lemma_line_end_at(text, sb, sb + nb);
    lemma_line_end_at(text, sc, sc + nc);
    lemma_line_end_at(text, se, se);
    assert(text.subrange(0, na) =~= a);
    assert(text.subrange(sb, sb + nb) =~= b);
    assert(text.subrange(sc, sc + nc) =~= c);
    let empty = Seq::<char>::empty();
    assert(text.subrange(se, text.len() as int) =~= empty);
    assert(lines_from(text, se) == seq![empty]);
    assert(lines_from(text, sc) =~= seq![c] + seq![empty]);
    assert(lines_from(text, sb) =~= seq![b] + (seq![c] + seq![empty]));
    assert(lines_from(text, 0) =~= seq![a] + (seq![b] + (seq![c] + seq![empty])));
    assert(lines_from(text, 0) =~= seq![a, b, c, empty]);
}

/// A description of the lines `a=ice-ufrag:UFRAG`, `a=` and a server reflexive
/// candidate line (see `srflx_line`), and `a=ice-pwd:PWD`, each ended by
/// `\r\n`, can be read, and reads as those credentials: a server reflexive
/// candidate line is a readable line that gives no credential. This holds
/// where both values are runs of `a-z0-9`, the candidate's foundation is
/// digits, its address `a-z0-9.-`, its related address `0-9.`, and the
/// candidate line names neither `ice-ufrag` nor `ice-pwd`.
pub proof fn law_srflx_candidate_line_is_read_past(
    ufrag: Seq<char>,
    pwd: Seq<char>,
    v: CandidateView,
    raddr: Seq<char>,
    rport: u16,
)
    requires
        is_credential(ufrag),
        is_credential(pwd),
        v.foundation.len() > 0,
        forall|k: int| 0 <= k < v.foundation.len() ==> is_digit(#[trigger] v.foundation[k]),
        v.ip.len() > 0,
        forall|k: int| 0 <= k < v.ip.len() ==> CharClass::HostChar.holds(#[trigger] v.ip[k]),
        v.transport != Transport::Invalid,
        raddr.len() > 0,
        forall|k: int| 0 <= k < raddr.len() ==> CharClass::DigitOrDot.holds(#[trigger] raddr[k]),
        !contains(seq!['a', '='] + srflx_line(v, raddr, rport), lit_ice_ufrag()),
        !contains(seq!['a', '='] + srflx_line(v, raddr, rport), lit_ice_pwd()),
    ensures
        ({
            let text = key_ufrag() + ufrag + seq!['\r', '\n'] + (seq!['a', '='] + srflx_line(v, raddr, rport))
                + seq!['\r', '\n'] + key_pwd() + pwd + seq!['\r', '\n'];
            &&& sdp_of_text(text) == Some(SdpView { ufrag, pwd })
            &&& credentials_of_text(text) == SdpView { ufrag, pwd }
        }),
{
    let crlf = seq!['\r', '\n'];
    let pre = seq!['a', '='];
    let line = srflx_line(v, raddr, rport);
    let a = key_ufrag() + ufrag;
    let b = pre + line;
    let c = key_pwd() + pwd;
    let text = key_ufrag() + ufrag + crlf + b + crlf + key_pwd() + pwd + crlf;
    assert(text =~= a + crlf + b + crlf + c + crlf);
    assert(no_cr(a)) by {
        assert forall|k: int| 0 <= k < a.len() implies a[k] != '\r' by {
            if k >= 12 {
                assert(a[k] == ufrag[k - 12]);
            }
        }
    }
    assert(no_cr(c)) by {
        assert forall|k: int| 0 <= k < c.len() implies c[k] != '\r' by {
            if k >= 10 {
                assert(c[k] == pwd[k - 10]);
            }
        }
    }
    lemma_srflx_line_no_cr(v, raddr, rport);
    assert(no_cr(b)) by {
        assert forall|k: int| 0 <= k < b.len() implies b[k] != '\r' by {
            if k >= 2 {
                assert(b[k] == line[k - 2]);
            }
        }
    }
    lemma_three_lines(a, b, c);
    assert(line_ok(b) && apply_line(SdpView { ufrag, pwd: Seq::empty() }, b) == SdpView {
        ufrag,
        pwd: Seq::empty(),
    }) by {
        assert forall|k: int| 0 <= k < pre.len() implies pre[k] != 'c' by {}
        law_srflx_line_reads_back(pre, v, raddr, rport);
    }
    lemma_read_three_lines(ufrag, pwd, b);
}

/// The lines `a=ice-ufrag:UFRAG`, `b` and `a=ice-pwd:PWD`, then an empty one,
/// read as those credentials where `b` can be read and gives no credential.
proof fn lemma_read_three_lines(ufrag: Seq<char>, pwd: Seq<char>, b: Seq<char>)
    requires
        is_credential(ufrag),
        is_credential(pwd),
        line_ok(b),
        apply_line((SdpView { ufrag, pwd: Seq::empty() }), b) == (SdpView { ufrag, pwd: Seq::empty() }),
    ensures
        read_lines(
            (SdpView { ufrag: Seq::empty(), pwd: Seq::empty() }),
            seq![key_ufrag() + ufrag, b, key_pwd() + pwd, Seq::<char>::empty()],
        ) == Some((SdpView { ufrag, pwd })),
        read_credentials(
            (SdpView { ufrag: Seq::empty(), pwd: Seq::empty() }),
            seq![key_ufrag() + ufrag, b, key_pwd() + pwd, Seq::<char>::empty()],
        ) == (SdpView { ufrag, pwd }),
{
    let a = key_ufrag() + ufrag;
    let c = key_pwd() + pwd;
    lemma_ufrag_line_names(ufrag);
    lemma_pwd_line_names(pwd);
    lemma_key_line(key_ufrag(), ufrag);
    lemma_key_line(key_pwd(), pwd);
    let empty = Seq::<char>::empty();
    assert(!contains(empty, lit_ice_ufrag()));
    assert(!contains(empty, lit_ice_pwd()));
    assert(!contains(empty, lit_candidate_word()));
    let start = SdpView { ufrag: Seq::empty(), pwd: Seq::empty() };
    let after_a = apply_line(start, a);
    let after_b = apply_line(after_a, b);
    let after_c = apply_line(after_b, c);
    assert(after_a == SdpView { ufrag, pwd: Seq::<char>::empty() });
    assert(after_b == after_a);
    assert(after_c == SdpView { ufrag, pwd });
    let ls = seq![a, b, c, empty];
    assert(ls.drop_first() =~= seq![b, c, empty]);
    assert(seq![b, c, empty].drop_first() =~= seq![c, empty]);
    assert(seq![c, empty].drop_first() =~= seq![empty]);
    assert(seq![empty].drop_first() =~= Seq::<Seq<char>>::empty());
    assert(read_lines(after_c, Seq::<Seq<char>>::empty()) == Some(after_c));
    assert(read_lines(after_c, seq![empty]) == Some(after_c));
    assert(read_lines(after_b, seq![c, empty]) == Some(after_c));
    assert(read_lines(after_a, seq![b, c, empty]) == Some(after_c));
    assert(read_lines(start, ls) == Some(after_c));
    lemma_read_lines_credentials(start, ls);
}

/// The offer up to the local ufrag. Its line ends are written as the four
/// characters `\r\n`, as the offer travels inside a JSON string.
pub const OFFER_HEAD: &'static str = "v=0\\r\\no=- 1625733337583270 1 IN IP4 192.168.1.2\\r\\ns=Mountpoint 99\\r\\nt=0 0\\r\\na=group:BUNDLE video\\r\\na=msid-semantic: WMS cloverleaf\\r\\nm=video 9 UDP/TLS/RTP/SAVPF 96 97\\r\\nc=IN IP4 192.168.1.2\\r\\na=sendonly\\r\\na=mid:video\\r\\na=rtcp-mux\\r\\na=ice-ufrag:";

/// The offer between the ufrag and the password.
pub const OFFER_PWD: &'static str = "\\r\\na=ice-pwd:";

/// The offer between the password and the fingerprint.
pub const OFFER_FINGERPRINT: &'static str = "\\r\\na=ice-options:trickle\\r\\na=fingerprint:";

/// The offer between the fingerprint and the candidate.
pub const OFFER_MEDIA: &'static str = "\\r\\na=setup:actpass\\r\\na=rtpmap:96 H264/90000\\r\\na=fmtp:96 profile-level-id=42e01f;packetization-mode=1\\r\\na=rtcp-fb:96 nack\\r\\na=rtcp-fb:96 nack pli\\r\\na=rtcp-fb:96 goog-remb\\r\\na=extmap:1 urn:ietf:params:rtp-hdrext:sdes:mid\\r\\na=rtpmap:97 rtx/90000\\r\\na=fmtp:97 apt=96\\r\\na=ssrc-group:FID 1811295701 180905187\\r\\na=msid:cloverleaf cloverleafv0\\r\\na=ssrc:1811295701 cname:cloverleaf\\r\\na=ssrc:1811295701 msid:cloverleaf cloverleafv0\\r\\na=ssrc:1811295701 mslabel:cloverleaf\\r\\na=ssrc:1811295701 label:cloverleafv0\\r\\na=ssrc:180905187 cname:cloverleaf\\r\\na=ssrc:180905187 msid:cloverleaf cloverleafv0\\r\\na=ssrc:180905187 mslabel:cloverleaf\\r\\na=ssrc:180905187 label:cloverleafv0\\r\\na=";

/// The offer after the candidate.
pub const OFFER_TAIL: &'static str = "\\r\\na=end-of-candidates\\r\\n";

/// The offer for one H.264 video stream that carries the credentials of
/// `sdp`, the certificate `fingerprint` and one local `candidate`.
pub open spec fn offer_text(sdp: SdpView, candidate_text: Seq<char>, fingerprint: Seq<char>) -> Seq<char> {
    OFFER_HEAD@ + sdp.ufrag + OFFER_PWD@ + sdp.pwd + OFFER_FINGERPRINT@ + fingerprint + OFFER_MEDIA@
        + candidate_text + OFFER_TAIL@
}

/// Writes the offer for one H.264 video stream with the credentials of `sdp`,
/// the certificate `fingerprint` and the local `candidate`, whose transport
/// must have a text.
pub fn create_sdp(sdp: &Sdp, candidate: &ParsedIceCandidate, fingerprint: &str) -> (r: String)
    requires
        candidate.transport != Transport::Invalid,
    ensures
        r@ == offer_text(sdp@, candidate_line(candidate@).unwrap(), fingerprint@),
{
    let line = match candidate.display() {
        Some(line) => line,
        None => String::new(),
    };
    let mut out = OFFER_HEAD.to_owned();
    out.append(sdp.ufrag.as_str());
    out.append(OFFER_PWD);
    out.append(sdp.pwd.as_str());
    out.append(OFFER_FINGERPRINT);
    out.append(fingerprint);
    out.append(OFFER_MEDIA);
    out.append(line.as_str());
    out.append(OFFER_TAIL);
    assert(out@ =~= offer_text(sdp@, candidate_line(candidate@).unwrap(), fingerprint@));
    out
}

/// The offer carries the credentials, the fingerprint and the candidate line
/// whole, each after its key and ended by `\r\n` (written as the four
/// characters `\r\n`): the lines `a=ice-ufrag:UFRAG`, `a=ice-pwd:PWD`,
/// `a=ice-options:trickle`, `a=fingerprint:FINGERPRINT` follow one another,
/// and the offer ends with `a=CANDIDATE` and `a=end-of-candidates`.
pub proof fn law_offer_carries_credentials(sdp: SdpView, candidate_text: Seq<char>, fingerprint: Seq<char>)
    ensures
        exists|head: Seq<char>, media: Seq<char>|
            offer_text(sdp, candidate_text, fingerprint) == head + "a=ice-ufrag:"@ + sdp.ufrag
                + "\\r\\na=ice-pwd:"@ + sdp.pwd + "\\r\\na=ice-options:trickle\\r\\na=fingerprint:"@
                + fingerprint + media + "a="@ + candidate_text + "\\r\\na=end-of-candidates\\r\\n"@,
{
    reveal_strlit("v=0\\r\\no=- 1625733337583270 1 IN IP4 192.168.1.2\\r\\ns=Mountpoint 99\\r\\nt=0 0\\r\\na=group:BUNDLE video\\r\\na=msid-semantic: WMS cloverleaf\\r\\nm=video 9 UDP/TLS/RTP/SAVPF 96 97\\r\\nc=IN IP4 192.168.1.2\\r\\na=sendonly\\r\\na=mid:video\\r\\na=rtcp-mux\\r\\na=ice-ufrag:");
    reveal_strlit("a=ice-ufrag:");
    reveal_strlit("\\r\\na=setup:actpass\\r\\na=rtpmap:96 H264/90000\\r\\na=fmtp:96 profile-level-id=42e01f;packetization-mode=1\\r\\na=rtcp-fb:96 nack\\r\\na=rtcp-fb:96 nack pli\\r\\na=rtcp-fb:96 goog-remb\\r\\na=extmap:1 urn:ietf:params:rtp-hdrext:sdes:mid\\r\\na=rtpmap:97 rtx/90000\\r\\na=fmtp:97 apt=96\\r\\na=ssrc-group:FID 1811295701 180905187\\r\\na=msid:cloverleaf cloverleafv0\\r\\na=ssrc:1811295701 cname:cloverleaf\\r\\na=ssrc:1811295701 msid:cloverleaf cloverleafv0\\r\\na=ssrc:1811295701 mslabel:cloverleaf\\r\\na=ssrc:1811295701 label:cloverleafv0\\r\\na=ssrc:180905187 cname:cloverleaf\\r\\na=ssrc:180905187 msid:cloverleaf cloverleafv0\\r\\na=ssrc:180905187 mslabel:cloverleaf\\r\\na=ssrc:180905187 label:cloverleafv0\\r\\na=");
    reveal_strlit("a=");
    let h = OFFER_HEAD@;
    let m = OFFER_MEDIA@;
    let head = h.subrange(0, h.len() - 12);
    let media = m.subrange(0, m.len() - 2);
    assert(h =~= head + "a=ice-ufrag:"@);
    assert(m =~= media + "a="@);
    assert(OFFER_PWD@ == "\\r\\na=ice-pwd:"@);
    assert(OFFER_FINGERPRINT@ == "\\r\\na=ice-options:trickle\\r\\na=fingerprint:"@);
    assert(OFFER_TAIL@ == "\\r\\na=end-of-candidates\\r\\n"@);
    assert(offer_text(sdp, candidate_text, fingerprint) =~= head + "a=ice-ufrag:"@ + sdp.ufrag
        + "\\r\\na=ice-pwd:"@ + sdp.pwd + "\\r\\na=ice-options:trickle\\r\\na=fingerprint:"@
        + fingerprint + media + "a="@ + candidate_text + "\\r\\na=end-of-candidates\\r\\n"@);
}

} // verus!
