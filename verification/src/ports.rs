//! Parsing one raw port-mapping fragment into a structured record.
//!
//! A fragment looks like `0.0.0.0:8080->80/tcp`: the text before the first
//! `:` is the bind address, the two tokens after it (split on `/`, `:` and
//! `>`) are the host-side and container-side ports, and the token after the
//! `/` names the protocol. Port numbers that fail to parse degrade to the
//! `-1` sentinel; a fragment without the expected delimiters is rejected.

use crate::protocol::{classify_spec, protocol_name, Protocol};
use crate::text::{
    chars_of, chars_to_string, i32_to_string, spec_dec, split_any, split_chars, trim_chars,
    trim_set,
};
use vstd::prelude::*;
use vstd::string::*;

verus! {

/// Whether `c` is a decimal digit.
pub open spec fn is_digit(c: char) -> bool {
    48 <= c as u32 && c as u32 <= 57
}

/// The numeric value of a digit character.
pub open spec fn digit_val(c: char) -> int {
    c as u32 - 48
}

/// Whether every character of `s` is a decimal digit.
pub open spec fn all_digits(s: Seq<char>) -> bool {
    forall|i: int| 0 <= i < s.len() ==> is_digit(s[i])
}

/// The numeric value of a digit string, most significant digit first.
pub open spec fn dec_val(s: Seq<char>) -> int
    decreases s.len(),
{
    if s.len() == 0 {
        0
    } else {
        dec_val(s.drop_last()) * 10 + digit_val(s.last())
    }
}

/// The port number encoded by a raw port token: surrounding `-` characters
/// (left over from the `->` separator) are trimmed; a non-empty all-digit
/// remainder that fits a 32-bit signed integer is its value, and anything
/// else is the `-1` sentinel.
pub open spec fn spec_parse_port(tok: Seq<char>) -> int {
    let t = trim_set(tok, seq!['-']);
    if t.len() > 0 && all_digits(t) && dec_val(t) <= 2147483647 {
        dec_val(t)
    } else {
        -1
    }
}

pub proof fn lemma_dec_val_nonneg(s: Seq<char>)
    requires
        all_digits(s),
    ensures
        dec_val(s) >= 0,
    decreases s.len(),
{
    if s.len() > 0 {
        assert forall|i: int| 0 <= i < s.drop_last().len() implies is_digit(s.drop_last()[i]) by {
            assert(s.drop_last()[i] == s[i]);
        }
        lemma_dec_val_nonneg(s.drop_last());
    }
}

/// The value of a digit string is at least the value of any of its prefixes.
pub proof fn lemma_dec_val_prefix_le(s: Seq<char>, k: int)
    requires
        all_digits(s),
        0 <= k <= s.len(),
    ensures
        0 <= dec_val(s.subrange(0, k)) <= dec_val(s),
    decreases s.len() - k,
{
    assert forall|j: int| 0 <= j <= s.len() implies all_digits(s.subrange(0, j)) by {
        assert forall|i: int| 0 <= i < j implies is_digit(s.subrange(0, j)[i]) by {
            assert(s.subrange(0, j)[i] == s[i]);
        }
    }
    lemma_dec_val_nonneg(s.subrange(0, k));
    if k == s.len() {
        assert(s.subrange(0, k) =~= s);
    } else {
        lemma_dec_val_prefix_le(s, k + 1);
        let p = s.subrange(0, k + 1);
        assert(p.drop_last() =~= s.subrange(0, k));
        assert(p.last() == s[k]);
        assert(dec_val(p) == dec_val(s.subrange(0, k)) * 10 + digit_val(s[k]));
    }
}

/// Parses one port token, degrading to `-1` rather than failing.
pub fn parse_port_token(tok: &Vec<char>) -> (r: i32)
    ensures
        r as int == spec_parse_port(tok@),
{
    let dashes: Vec<char> = vec!['-'];
    assert(dashes@ =~= seq!['-']);
    let t = trim_chars(tok, &dashes);
    let n = t.len();
    if n == 0 {
        return -1;
    }
    let mut i: usize = 0;
    while i < n
        invariant
            i <= n,
            n == t@.len(),
            t@ == trim_set(tok@, seq!['-']),
            forall|j: int| 0 <= j < i ==> is_digit(t@[j]),
        decreases n - i,
    {
        let u = t[i] as u32;
        if !(48 <= u && u <= 57) {
            assert(!is_digit(t@[i as int]));
            return -1;
        }
        i = i + 1;
    }
    assert(all_digits(t@));
    let mut val: i64 = 0;
    let mut i: usize = 0;
    while i < n
        invariant
            i <= n,
            n == t@.len(),
            t@ == trim_set(tok@, seq!['-']),
            all_digits(t@),
            0 <= val <= 2147483647,
            val == dec_val(t@.subrange(0, i as int)),
        decreases n - i,
    {
        let d = (t[i] as u32 - 48) as i64;
        assert(is_digit(t@[i as int]));
        let nv = val * 10 + d;
        proof {
            let p = t@.subrange(0, i + 1);
            assert(p.drop_last() =~= t@.subrange(0, i as int));
            assert(p.last() == t@[i as int]);
            assert(dec_val(p) == nv);
        }
        if nv > 2147483647 {
            proof {
                lemma_dec_val_prefix_le(t@, i + 1);
            }
            return -1;
        }
        val = nv;
        i = i + 1;
    }
    assert(t@.subrange(0, n as int) =~= t@);
    val as i32
}

/// One exposed port binding: a bind address, the host-side and
/// container-side ports (`-1` when unparseable), and the protocol.
#[derive(Clone, Debug, PartialEq)]
pub struct PortMapping {
    ip_addr: String,
    source_port: i32,
    target_port: i32,
    protocol: Protocol,
}

/// The mathematical content of a `PortMapping`.
pub struct PortMappingModel {
    pub ip: Seq<char>,
    pub source: int,
    pub target: int,
    pub protocol: Protocol,
}

impl View for PortMapping {
    type V = PortMappingModel;

    closed spec fn view(&self) -> PortMappingModel {
        PortMappingModel {
            ip: self.ip_addr@,
            source: self.source_port as int,
            target: self.target_port as int,
            protocol: self.protocol,
        }
    }
}

impl DeepView for PortMapping {
    type V = PortMappingModel;

    open spec fn deep_view(&self) -> PortMappingModel {
        self@
    }
}

/// The record encoded by one raw fragment, if the fragment has the expected
/// delimiters: a `/` (so a protocol token exists) and at least two tokens
/// after the address once split on `/`, `:` and `>`.
pub open spec fn spec_parse_fragment(frag: Seq<char>) -> Option<PortMappingModel> {
    let slash = split_any(frag, seq!['/']);
    let toks = split_any(frag, seq!['/', ':', '>']);
    if slash.len() < 2 || toks.len() < 3 {
        None
    } else {
        Some(
            PortMappingModel {
                ip: split_any(frag, seq![':'])[0],
                source: spec_parse_port(toks[1]),
                target: spec_parse_port(toks[2]),
                protocol: classify_spec(slash[1]),
            },
        )
    }
}

impl PortMapping {
    /// Parses one raw fragment, already trimmed of surrounding whitespace.
    pub fn parse(fragment: &str) -> (r: Option<PortMapping>)
        ensures
            r.deep_view() == spec_parse_fragment(fragment@),
    {
        let v = chars_of(fragment);
        PortMapping::parse_chars(&v)
    }

    /// As `parse`, over the fragment's characters.
    pub fn parse_chars(v: &Vec<char>) -> (r: Option<PortMapping>)
        ensures
            r.deep_view() == spec_parse_fragment(v@),
    {
        let slashes: Vec<char> = vec!['/'];
        let all_seps: Vec<char> = vec!['/', ':', '>'];
        let colons: Vec<char> = vec![':'];
        assert(slashes@ =~= seq!['/']);
        assert(all_seps@ =~= seq!['/', ':', '>']);
        assert(colons@ =~= seq![':']);
        let slash = split_chars(v, &slashes);
        let toks = split_chars(v, &all_seps);
        assert(slash@.len() == split_any(v@, seq!['/']).len());
        assert(toks@.len() == split_any(v@, seq!['/', ':', '>']).len());
        if slash.len() < 2 || toks.len() < 3 {
            return None;
        }
        let colon = split_chars(v, &colons);
        proof {
            crate::text::lemma_split_any_len(v@, seq![':']);
            assert(colon@.len() == split_any(v@, seq![':']).len());
        }
        let ip = chars_to_string(&colon[0]);
        let source = parse_port_token(&toks[1]);
        let target = parse_port_token(&toks[2]);
        let protocol = Protocol::classify_chars(&slash[1]);
        let m = PortMapping { ip_addr: ip, source_port: source, target_port: target, protocol };
        proof {
            assert(colon@[0]@ == colon.deep_view()[0]);
            assert(toks@[1]@ == toks.deep_view()[1]);
            assert(toks@[2]@ == toks.deep_view()[2]);
            assert(slash@[1]@ == slash.deep_view()[1]);
        }
        assert(m@ == spec_parse_fragment(v@).unwrap());
        Some(m)
    }

    /// The HTML list item for this mapping, as it appears in the row view.
    pub fn to_html_list_item(&self) -> (r: String)
        ensures
            r@ == li_view(self@),
    {
        let mut r = String::from_str("<li>");
        let s = i32_to_string(self.source_port);
        r.append(s.as_str());
        r.append(" -> ");
        let t = i32_to_string(self.target_port);
        r.append(t.as_str());
        r.append(", on ");
        r.append(self.ip_addr.as_str());
        r.append(" (");
        r.append(self.protocol.as_str());
        r.append(")</li>");
        assert(r@ =~= li_view(self@));
        r
    }

    /// The bind address.
    pub fn ip_addr(&self) -> (r: &str)
        ensures
            r@ == self@.ip,
    {
        self.ip_addr.as_str()
    }

    /// The host-side port, or `-1`.
    pub fn source_port(&self) -> (r: i32)
        ensures
            r as int == self@.source,
    {
        self.source_port
    }

    /// The container-side port, or `-1`.
    pub fn target_port(&self) -> (r: i32)
        ensures
            r as int == self@.target,
    {
        self.target_port
    }

    /// The protocol.
    pub fn protocol(&self) -> (r: Protocol)
        ensures
            r == self@.protocol,
    {
        self.protocol
    }
}

/// The HTML list item rendered for one mapping.
pub open spec fn li_view(m: PortMappingModel) -> Seq<char> {
    "<li>"@ + spec_dec(m.source) + " -> "@ + spec_dec(m.target) + ", on "@ + m.ip + " ("@
        + protocol_name(m.protocol) + ")</li>"@
}

/// A fragment with the expected delimiters always yields a mapping: an
/// unparseable port substring degrades to the `-1` sentinel inside the
/// record instead of failing the fragment.
pub proof fn lemma_port_parse_recovers(frag: Seq<char>)
    requires
        split_any(frag, seq!['/']).len() >= 2,
        split_any(frag, seq!['/', ':', '>']).len() >= 3,
    ensures
        spec_parse_fragment(frag) is Some,
{
}

/// A port token parses either to the `-1` sentinel — exactly when its
/// trimmed text is not a plain decimal number fitting 32 signed bits — or
/// to that number, which is non-negative.
pub proof fn lemma_port_sentinel(tok: Seq<char>)
    ensures
        spec_parse_port(tok) == -1 <==> {
            let t = trim_set(tok, seq!['-']);
            !(t.len() > 0 && all_digits(t) && dec_val(t) <= 2147483647)
        },
        spec_parse_port(tok) == -1 || 0 <= spec_parse_port(tok) <= 2147483647,
{
    let t = trim_set(tok, seq!['-']);
    if t.len() > 0 && all_digits(t) && dec_val(t) <= 2147483647 {
        lemma_dec_val_nonneg(t);
    }
}

} // verus!
