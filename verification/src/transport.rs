//! The transport protocol named in an ICE candidate.
use vstd::prelude::*;

use crate::text::chars_of;

verus! {

/// The transport protocol of a candidate.
#[derive(Clone, Copy, Debug, PartialEq, Eq, Structural)]
pub enum Transport {
    Udp,
    Tcp,
    Invalid,
}

/// The transport that a transport name stands for: exactly `UDP` or `TCP`,
/// anything else is `Invalid`.
pub open spec fn transport_named(name: Seq<char>) -> Transport {
    if name == seq!['U', 'D', 'P'] {
        Transport::Udp
    } else if name == seq!['T', 'C', 'P'] {
        Transport::Tcp
    } else {
        Transport::Invalid
    }
}

/// The text that a transport is displayed as; `Invalid` has none.
pub open spec fn transport_text(t: Transport) -> Option<Seq<char>> {
    match t {
        Transport::Udp => Some(seq!['U', 'D', 'P']),
        Transport::Tcp => Some(seq!['T', 'C', 'P']),
        Transport::Invalid => None,
    }
}

fn is_three(s: &Vec<char>, a: char, b: char, c: char) -> (r: bool)
    ensures
        r == (s@ == seq![a, b, c]),
{
    if s.len() == 3 && s[0] == a && s[1] == b && s[2] == c {
        assert(s@ =~= seq![a, b, c]);
        true
    } else {
        false
    }
}

impl<'a> From<&'a str> for Transport {
    fn from(transport: &'a str) -> (t: Transport) {
        let name = chars_of(transport);
        if is_three(&name, 'U', 'D', 'P') {
            Transport::Udp
        } else if is_three(&name, 'T', 'C', 'P') {
            Transport::Tcp
        } else {
            Transport::Invalid
        }
    }
}

impl<'a> vstd::std_specs::convert::FromSpecImpl<&'a str> for Transport {
    open spec fn obeys_from_spec() -> bool {
        true
    }

    open spec fn from_spec(v: &'a str) -> Transport {
        transport_named(v@)
    }
}

impl Transport {
    /// The text of the transport (`UDP` or `TCP`); `None` for `Invalid`, which
    /// has no text.
    pub fn display(&self) -> (r: Option<String>)
        ensures
            r is Some <==> transport_text(*self) is Some,
            r matches Some(s) ==> Some(s@) == transport_text(*self),
    {
        proof {
            reveal_strlit("UDP");
            reveal_strlit("TCP");
        }
        match self {
            Transport::Udp => Some("UDP".to_owned()),
            Transport::Tcp => Some("TCP".to_owned()),
            Transport::Invalid => None,
        }
    }
}

/// Reading back the text of a transport gives the transport again.
pub proof fn law_transport_text_round_trip(t: Transport)
    requires
        t != Transport::Invalid,
    ensures
        transport_text(t) matches Some(text) && transport_named(text) == t,
{
}

} // verus!
