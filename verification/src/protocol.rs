//! The transport-protocol token of a port mapping, as a closed enumeration.

use vstd::prelude::*;

verus! {

/// The transport protocol named by a port-mapping fragment. `Empty` stands
/// for a fragment whose protocol token is the empty string; `Other` for any
/// unrecognized token.
#[derive(Clone, Copy, PartialEq, Eq, Structural, Debug)]
pub enum Protocol {
    Tcp,
    Udp,
    Empty,
    Other,
}

/// The code point of `c` after ASCII lowercasing: letters `A`..`Z`
/// (code points 65..90) map 32 higher, everything else is unchanged.
pub open spec fn lower_code(c: char) -> int {
    if 65 <= c as u32 && c as u32 <= 90 {
        c as u32 + 32
    } else {
        c as u32 as int
    }
}

/// Equality of two character sequences up to ASCII case.
pub open spec fn eq_ignore_case(a: Seq<char>, b: Seq<char>) -> bool {
    a.len() == b.len() && (forall|i: int| 0 <= i < a.len() ==> lower_code(a[i]) == lower_code(b[i]))
}

/// Classification of a raw protocol token: `tcp` and `udp` in any case,
/// the empty token, and everything else.
pub open spec fn classify_spec(token: Seq<char>) -> Protocol {
    if eq_ignore_case(token, seq!['t', 'c', 'p']) {
        Protocol::Tcp
    } else if eq_ignore_case(token, seq!['u', 'd', 'p']) {
        Protocol::Udp
    } else if token.len() == 0 {
        Protocol::Empty
    } else {
        Protocol::Other
    }
}

fn lower_code_exec(c: char) -> (r: u32)
    ensures
        r as int == lower_code(c),
{
    let u = c as u32;
    if 65 <= u && u <= 90 {
        u + 32
    } else {
        u
    }
}

fn char_eq_ci(a: char, b: char) -> (r: bool)
    ensures
        r == (lower_code(a) == lower_code(b)),
{
    lower_code_exec(a) == lower_code_exec(b)
}

impl Protocol {
    /// Maps a raw protocol token to its classification, ignoring ASCII case.
    pub fn classify(token: &str) -> (p: Protocol)
        ensures
            p == classify_spec(token@),
    {
        let v = crate::text::chars_of(token);
        Protocol::classify_chars(&v)
    }

    /// As `classify`, over the token's characters.
    pub fn classify_chars(v: &Vec<char>) -> (p: Protocol)
        ensures
            p == classify_spec(v@),
    {
        let ghost t = v@;
        if v.len() == 3 {
            let t0 = char_eq_ci(v[0], 't');
            let t1 = char_eq_ci(v[1], 'c');
            let t2 = char_eq_ci(v[2], 'p');
            if t0 && t1 && t2 {
                assert(eq_ignore_case(t, seq!['t', 'c', 'p'])) by {
                    assert forall|i: int| 0 <= i < 3 implies lower_code(t[i]) == lower_code(
                        seq!['t', 'c', 'p'][i],
                    ) by {
                        if i == 0 {
                        } else if i == 1 {
                        } else {
                        }
                    }
                }
                return Protocol::Tcp;
            }
            let u0 = char_eq_ci(v[0], 'u');
            let u1 = char_eq_ci(v[1], 'd');
            let u2 = char_eq_ci(v[2], 'p');
            proof {
                if eq_ignore_case(t, seq!['t', 'c', 'p']) {
                    assert(lower_code(t[0]) == lower_code('t'));
                    assert(lower_code(t[1]) == lower_code('c'));
                    assert(lower_code(t[2]) == lower_code('p'));
                }
            }
            if u0 && u1 && u2 {
                assert(eq_ignore_case(t, seq!['u', 'd', 'p'])) by {
                    assert forall|i: int| 0 <= i < 3 implies lower_code(t[i]) == lower_code(
                        seq!['u', 'd', 'p'][i],
                    ) by {
                        if i == 0 {
                        } else if i == 1 {
                        } else {
                        }
                    }
                }
                return Protocol::Udp;
            }
            proof {
                if eq_ignore_case(t, seq!['u', 'd', 'p']) {
                    assert(lower_code(t[0]) == lower_code('u'));
                    assert(lower_code(t[1]) == lower_code('d'));
                    assert(lower_code(t[2]) == lower_code('p'));
                }
            }
            Protocol::Other
        } else if v.len() == 0 {
            Protocol::Empty
        } else {
            Protocol::Other
        }
    }

    /// The display name of the protocol, as it appears in rendered HTML.
    pub fn as_str(&self) -> (r: &str)
        ensures
            r@ == protocol_name(*self),
    {
        match self {
            Protocol::Tcp => "TCP",
            Protocol::Udp => "UDP",
            Protocol::Empty => "Empty",
            Protocol::Other => "Other",
        }
    }
}

/// The display name of each protocol variant.
pub open spec fn protocol_name(p: Protocol) -> Seq<char> {
    match p {
        Protocol::Tcp => "TCP"@,
        Protocol::Udp => "UDP"@,
        Protocol::Empty => "Empty"@,
        Protocol::Other => "Other"@,
    }
}

/// Classification ignores ASCII case: two tokens whose characters agree
/// after lowercasing classify alike. Together with `classify_spec` being a
/// total function of the token, this is the whole case-insensitivity claim.
pub proof fn lemma_classify_case_insensitive(a: Seq<char>, b: Seq<char>)
    requires
        eq_ignore_case(a, b),
    ensures
        classify_spec(a) == classify_spec(b),
{
    assert(a.len() == b.len());
    if eq_ignore_case(a, seq!['t', 'c', 'p']) || eq_ignore_case(b, seq!['t', 'c', 'p']) {
        assert(eq_ignore_case(a, seq!['t', 'c', 'p']) <==> eq_ignore_case(
            b,
            seq!['t', 'c', 'p'],
        ));
    }
    if eq_ignore_case(a, seq!['u', 'd', 'p']) || eq_ignore_case(b, seq!['u', 'd', 'p']) {
        assert(eq_ignore_case(a, seq!['u', 'd', 'p']) <==> eq_ignore_case(
            b,
            seq!['u', 'd', 'p'],
        ));
    }
}

} // verus!
