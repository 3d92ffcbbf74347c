//! Parsing a full listing line into a container record, parsing whole
//! listings, and rendering records as HTML fragments.
//!
//! A listing line is `;`-separated — `id;ports;name;image` with an optional
//! trailing uptime field — and may be wrapped in one pair of quotes. The
//! ports field is `,`-separated; only fragments containing `>` encode a
//! mapping reachable from outside, the rest are dropped. A malformed line
//! or fragment is skipped rather than failing the whole listing.

use crate::ports::{li_view, spec_parse_fragment, PortMapping, PortMappingModel};
use crate::text::{
    chars_of, chars_to_string, contains_char, spec_dec, split_any, split_chars, subvec,
    trim_chars, trim_set,
};
use vstd::prelude::*;
use vstd::string::*;

verus! {

/// The whitespace characters trimmed from a port fragment.
pub open spec fn whitespace() -> Seq<char> {
    seq![' ', '\t', '\r', '\n']
}

/// `line` with one pair of enclosing quotes removed, if present.
pub open spec fn strip_quotes(line: Seq<char>) -> Seq<char> {
    if line.len() >= 2 && line[0] == '"' && line.last() == '"' {
        line.subrange(1, line.len() - 1)
    } else {
        line
    }
}

/// One running container as reported by a listing line.
#[derive(Clone, Debug, PartialEq)]
pub struct Container {
    id: String,
    ports: Vec<PortMapping>,
    name: String,
    image: String,
    time_running: String,
}

/// The mathematical content of a `Container`.
pub struct ContainerModel {
    pub id: Seq<char>,
    pub ports: Seq<PortMappingModel>,
    pub name: Seq<char>,
    pub image: Seq<char>,
    pub time_running: Seq<char>,
}

impl View for Container {
    type V = ContainerModel;

    closed spec fn view(&self) -> ContainerModel {
        ContainerModel {
            id: self.id@,
            ports: self.ports.deep_view(),
            name: self.name@,
            image: self.image@,
            time_running: self.time_running@,
        }
    }
}

impl DeepView for Container {
    type V = ContainerModel;

    open spec fn deep_view(&self) -> ContainerModel {
        self@
    }
}

/// The mappings contributed by the raw comma fragments of a ports field:
/// each fragment is trimmed of whitespace, fragments without `>` are
/// dropped, and a `>`-bearing fragment without the expected delimiters is
/// skipped rather than failing the record.
pub open spec fn spec_ports_of(frags: Seq<Seq<char>>) -> Seq<PortMappingModel>
    decreases frags.len(),
{
    if frags.len() == 0 {
        Seq::empty()
    } else {
        let rest = spec_ports_of(frags.drop_last());
        let f = trim_set(frags.last(), whitespace());
        if f.contains('>') {
            match spec_parse_fragment(f) {
                Some(m) => rest.push(m),
                None => rest,
            }
        } else {
            rest
        }
    }
}

/// The record encoded by one listing line, if it has at least the four
/// fields `id;ports;name;image`; a fifth field, when present, is the
/// human-readable uptime.
pub open spec fn spec_parse_line(line: Seq<char>) -> Option<ContainerModel> {
    let l = strip_quotes(line);
    let fields = split_any(l, seq![';']);
    if fields.len() < 4 {
        None
    } else {
        Some(
            ContainerModel {
                id: fields[0],
                ports: spec_ports_of(split_any(fields[1], seq![','])),
                name: fields[2],
                image: fields[3],
                time_running: if fields.len() >= 5 {
                    fields[4]
                } else {
                    Seq::<char>::empty()
                },
            },
        )
    }
}

impl Container {
    /// Parses one raw listing line; a line with fewer than four fields is
    /// rejected instead of failing the caller.
    pub fn parse(line: &str) -> (r: Option<Container>)
        ensures
            r.deep_view() == spec_parse_line(line@),
    {
        let v = chars_of(line);
        Container::parse_chars(&v)
    }

    /// As `parse`, over the line's characters.
    pub fn parse_chars(v: &Vec<char>) -> (r: Option<Container>)
        ensures
            r.deep_view() == spec_parse_line(v@),
    {
        let n = v.len();
        let stripped: Vec<char> = if n >= 2 && v[0] == '"' && v[n - 1] == '"' {
            subvec(v, 1, n - 1)
        } else {
            assert(v@.subrange(0, n as int) =~= v@);
            subvec(v, 0, n)
        };
        assert(stripped@ == strip_quotes(v@));
        let semis: Vec<char> = vec![';'];
        assert(semis@ =~= seq![';']);
        let fields = split_chars(&stripped, &semis);
        let ghost fs = split_any(strip_quotes(v@), seq![';']);
        assert(fields.deep_view() == fs);
        assert(fields@.len() == fs.len());
        if fields.len() < 4 {
            return None;
        }
        let commas: Vec<char> = vec![','];
        assert(commas@ =~= seq![',']);
        assert(fields@[1]@ == fs[1]);
        let frags = split_chars(&fields[1], &commas);
        let ghost fr = split_any(fs[1], seq![',']);
        assert(frags.deep_view() == fr);
        let ws: Vec<char> = vec![' ', '\t', '\r', '\n'];
        assert(ws@ =~= whitespace());
        let mut ports: Vec<PortMapping> = Vec::new();
        let mut i: usize = 0;
        assert(fr.subrange(0, 0) =~= Seq::<Seq<char>>::empty());
        assert(ports.deep_view() =~= spec_ports_of(fr.subrange(0, 0)));
        while i < frags.len()
            invariant
                i <= frags@.len(),
                ws@ == whitespace(),
                frags.deep_view() == fr,
                ports.deep_view() == spec_ports_of(fr.subrange(0, i as int)),
            decreases frags@.len() - i,
        {
            let f = trim_chars(&frags[i], &ws);
            assert(frags@[i as int]@ == fr[i as int]);
            assert(f@ == trim_set(fr[i as int], whitespace()));
            let ghost ports0 = ports.deep_view();
            if contains_char(&f, '>') {
                match PortMapping::parse_chars(&f) {
                    Some(m) => {
                        let ghost mv = m.deep_view();
                        ports.push(m);
                        assert(ports.deep_view() =~~= ports0.push(mv));
                    },
                    None => {},
                }
            }
            proof {
                let pre = fr.subrange(0, i as int);
                let pre1 = fr.subrange(0, i + 1);
                assert(pre1.drop_last() =~= pre);
                assert(pre1.last() == fr[i as int]);
            }
            i = i + 1;
        }
        assert(fr.subrange(0, fr.len() as int) =~= fr);
        assert(fields@[0]@ == fs[0]);
        assert(fields@[2]@ == fs[2]);
        assert(fields@[3]@ == fs[3]);
        let time_running: String = if fields.len() >= 5 {
            assert(fields@[4]@ == fs[4]);
            chars_to_string(&fields[4])
        } else {
            String::new()
        };
        let c = Container {
            id: chars_to_string(&fields[0]),
            ports,
            name: chars_to_string(&fields[2]),
            image: chars_to_string(&fields[3]),
            time_running,
        };
        assert(c@ == spec_parse_line(v@).unwrap());
        Some(c)
    }

    /// The HTML table row for this container: name, port list, image, id.
    pub fn to_html_tr(&self) -> (r: String)
        ensures
            r@ == tr_view(self@),
    {
        let mut r = String::from_str("<tr><td>");
        r.append(self.name.as_str());
        r.append("</td><td>");
        let ul = port_map_list_to_html_ul(&self.ports);
        r.append(ul.as_str());
        r.append("</td><td>");
        r.append(self.image.as_str());
        r.append("</td><td>");
        r.append(self.id.as_str());
        r.append("</td></tr>");
        assert(r@ =~= tr_view(self@));
        r
    }

    /// The HTML card for this container: name, uptime badge, image, id,
    /// and a ports section with one link per mapping — or the literal
    /// `No ports exposed` when there is none.
    pub fn to_html_card(&self, host: &str) -> (r: String)
        ensures
            r@ == card_view(self@, host@),
    {
        let mut r = String::from_str("<div class=\"card\"><h3>");
        r.append(self.name.as_str());
        r.append("</h3><span class=\"uptime\">");
        r.append(self.time_running.as_str());
        r.append("</span><p>");
        r.append(self.image.as_str());
        r.append("</p><p>");
        r.append(self.id.as_str());
        r.append("</p><div class=\"ports\">");
        let ghost head = r@;
        if self.ports.len() == 0 {
            r.append("No ports exposed");
            assert(self.ports.deep_view().len() == 0);
        } else {
            let mut i: usize = 0;
            assert(self.ports.deep_view().subrange(0, 0) =~= Seq::<PortMappingModel>::empty());
            while i < self.ports.len()
                invariant
                    i <= self.ports@.len(),
                    r@ == head + card_links(self.ports.deep_view().subrange(0, i as int), host@),
                decreases self.ports@.len() - i,
            {
                let pm = &self.ports[i];
                r.append("<a href=\"http://");
                r.append(host);
                r.append(":");
                let t = crate::text::i32_to_string(pm.target_port());
                r.append(t.as_str());
                r.append("/\">");
                r.append(t.as_str());
                r.append("</a>");
                proof {
                    let ms = self.ports.deep_view();
                    let pre = ms.subrange(0, i as int);
                    let pre1 = ms.subrange(0, i + 1);
                    assert(pre1.drop_last() =~= pre);
                    assert(pre1.last() == ms[i as int]);
                    assert(self.ports@[i as int].deep_view() == ms[i as int]);
                    assert(r@ =~= head + card_links(pre1, host@));
                }
                i = i + 1;
            }
            assert(self.ports.deep_view().subrange(0, self.ports.deep_view().len() as int)
                =~= self.ports.deep_view());
        }
        r.append("</div></div>");
        assert(r@ =~= card_view(self@, host@));
        r
    }

    /// The container id.
    pub fn id(&self) -> (r: &str)
        ensures
            r@ == self@.id,
    {
        self.id.as_str()
    }

    /// The human-readable name.
    pub fn name(&self) -> (r: &str)
        ensures
            r@ == self@.name,
    {
        self.name.as_str()
    }

    /// The image reference the container was started from.
    pub fn image(&self) -> (r: &str)
        ensures
            r@ == self@.image,
    {
        self.image.as_str()
    }

    /// The human-readable uptime, empty for a four-field line.
    pub fn time_running(&self) -> (r: &str)
        ensures
            r@ == self@.time_running,
    {
        self.time_running.as_str()
    }

    /// The port mappings, in the order the engine reported them.
    pub fn ports(&self) -> (r: &Vec<PortMapping>)
        ensures
            r.deep_view() == self@.ports,
    {
        &self.ports
    }
}

/// The list items of the row view, one per mapping, in order.
pub open spec fn ul_items(ms: Seq<PortMappingModel>) -> Seq<char>
    decreases ms.len(),
{
    if ms.len() == 0 {
        Seq::empty()
    } else {
        ul_items(ms.drop_last()) + li_view(ms.last())
    }
}

/// The unordered list rendered for a container's mappings.
pub open spec fn ul_view(ms: Seq<PortMappingModel>) -> Seq<char> {
    "<ul>"@ + ul_items(ms) + "</ul>"@
}

/// Renders the port mappings as an HTML unordered list.
pub fn port_map_list_to_html_ul(port_maps: &Vec<PortMapping>) -> (r: String)
    ensures
        r@ == ul_view(port_maps.deep_view()),
{
    let mut r = String::from_str("<ul>");
    let mut i: usize = 0;
    assert(port_maps.deep_view().subrange(0, 0) =~= Seq::<PortMappingModel>::empty());
    while i < port_maps.len()
        invariant
            i <= port_maps@.len(),
            r@ == "<ul>"@ + ul_items(port_maps.deep_view().subrange(0, i as int)),
        decreases port_maps@.len() - i,
    {
        let pm = &port_maps[i];
        let li = pm.to_html_list_item();
        r.append(li.as_str());
        proof {
            let ms = port_maps.deep_view();
            let pre = ms.subrange(0, i as int);
            let pre1 = ms.subrange(0, i + 1);
            assert(pre1.drop_last() =~= pre);
            assert(pre1.last() == ms[i as int]);
            assert(port_maps@[i as int].deep_view() == ms[i as int]);
            assert(r@ =~= "<ul>"@ + ul_items(pre1));
        }
        i = i + 1;
    }
    assert(port_maps.deep_view().subrange(0, port_maps.deep_view().len() as int)
        =~= port_maps.deep_view());
    r.append("</ul>");
    assert(r@ =~= ul_view(port_maps.deep_view()));
    r
}

/// The table row rendered for a container.
pub open spec fn tr_view(c: ContainerModel) -> Seq<char> {
    "<tr><td>"@ + c.name + "</td><td>"@ + ul_view(c.ports) + "</td><td>"@ + c.image + "</td><td>"@
        + c.id + "</td></tr>"@
}

/// The clickable link rendered for one mapping in the card view.
pub open spec fn port_link_view(m: PortMappingModel, host: Seq<char>) -> Seq<char> {
    "<a href=\"http://"@ + host + ":"@ + spec_dec(m.target) + "/\">"@ + spec_dec(m.target)
        + "</a>"@
}

/// The concatenated links of the card view, one per mapping, in order.
pub open spec fn card_links(ms: Seq<PortMappingModel>, host: Seq<char>) -> Seq<char>
    decreases ms.len(),
{
    if ms.len() == 0 {
        Seq::empty()
    } else {
        card_links(ms.drop_last(), host) + port_link_view(ms.last(), host)
    }
}

/// The ports section of the card view: the literal `No ports exposed`
/// placeholder when there is no mapping, the links otherwise.
pub open spec fn card_ports_view(ms: Seq<PortMappingModel>, host: Seq<char>) -> Seq<char> {
    if ms.len() == 0 {
        "No ports exposed"@
    } else {
        card_links(ms, host)
    }
}

/// The card rendered for a container.
pub open spec fn card_view(c: ContainerModel, host: Seq<char>) -> Seq<char> {
    "<div class=\"card\"><h3>"@ + c.name + "</h3><span class=\"uptime\">"@ + c.time_running
        + "</span><p>"@ + c.image + "</p><p>"@ + c.id + "</p><div class=\"ports\">"@
        + card_ports_view(c.ports, host) + "</div></div>"@
}

/// The records encoded by raw listing lines: empty lines are dropped, and
/// a malformed line is skipped rather than failing the listing.
pub open spec fn spec_containers_of(lines: Seq<Seq<char>>) -> Seq<ContainerModel>
    decreases lines.len(),
{
    if lines.len() == 0 {
        Seq::empty()
    } else {
        let rest = spec_containers_of(lines.drop_last());
        let l = lines.last();
        if l.len() == 0 {
            rest
        } else {
            match spec_parse_line(l) {
                Some(c) => rest.push(c),
                None => rest,
            }
        }
    }
}

/// The records encoded by a whole listing, split on newlines.
pub open spec fn spec_parse_listing(text: Seq<char>) -> Seq<ContainerModel> {
    spec_containers_of(split_any(text, seq!['\n']))
}

/// Parses the full output of the engine's list command, line by line.
pub fn parse_listing(text: &str) -> (r: Vec<Container>)
    ensures
        r.deep_view() == spec_parse_listing(text@),
{
    let v = chars_of(text);
    let newlines: Vec<char> = vec!['\n'];
    assert(newlines@ =~= seq!['\n']);
    let lines = split_chars(&v, &newlines);
    let ghost ls = split_any(text@, seq!['\n']);
    assert(lines.deep_view() == ls);
    let mut r: Vec<Container> = Vec::new();
    let mut i: usize = 0;
    assert(ls.subrange(0, 0) =~= Seq::<Seq<char>>::empty());
    assert(r.deep_view() =~= spec_containers_of(ls.subrange(0, 0)));
    while i < lines.len()
        invariant
            i <= lines@.len(),
            lines.deep_view() == ls,
            r.deep_view() == spec_containers_of(ls.subrange(0, i as int)),
        decreases lines@.len() - i,
    {
        let line = &lines[i];
        assert(lines@[i as int]@ == ls[i as int]);
        let ghost r0 = r.deep_view();
        if line.len() > 0 {
            match Container::parse_chars(line) {
                Some(c) => {
                    let ghost cv = c.deep_view();
                    r.push(c);
                    assert(r.deep_view() =~~= r0.push(cv));
                },
                None => {},
            }
        }
        proof {
            let pre = ls.subrange(0, i as int);
            let pre1 = ls.subrange(0, i + 1);
            assert(pre1.drop_last() =~= pre);
            assert(pre1.last() == ls[i as int]);
        }
        i = i + 1;
    }
    assert(ls.subrange(0, ls.len() as int) =~= ls);
    r
}

/// The containers of one fetch of the engine's output. A failed fetch —
/// the launch failed or its output did not decode — degrades to an empty
/// listing instead of raising.
pub fn containers_from_fetch(fetched: Option<String>) -> (r: Vec<Container>)
    ensures
        match fetched {
            Some(text) => r.deep_view() == spec_parse_listing(text@),
            None => r@.len() == 0,
        },
{
    match fetched {
        Some(text) => parse_listing(text.as_str()),
        None => Vec::new(),
    }
}

/// The number of comma fragments whose trimmed text contains `>`.
pub open spec fn count_mapped(frags: Seq<Seq<char>>) -> int
    decreases frags.len(),
{
    if frags.len() == 0 {
        0
    } else {
        count_mapped(frags.drop_last()) + if trim_set(frags.last(), whitespace()).contains('>') {
            1 as int
        } else {
            0 as int
        }
    }
}

/// Fragments without `>` are dropped silently: when every `>`-bearing
/// fragment is well formed, the ports field with `N` comma fragments of
/// which `M` contain `>` yields exactly `M` mappings.
pub proof fn lemma_port_mapping_count(frags: Seq<Seq<char>>)
    requires
        forall|i: int|
            0 <= i < frags.len() ==> ((#[trigger] trim_set(frags[i], whitespace())).contains('>')
                ==> spec_parse_fragment(trim_set(frags[i], whitespace())) is Some),
    ensures
        spec_ports_of(frags).len() == count_mapped(frags),
    decreases frags.len(),
{
    if frags.len() > 0 {
        assert forall|i: int|
            0 <= i < frags.drop_last().len() && (#[trigger] trim_set(
                frags.drop_last()[i],
                whitespace(),
            )).contains('>') implies spec_parse_fragment(
            trim_set(frags.drop_last()[i], whitespace()),
        ) is Some by {
            assert(frags.drop_last()[i] == frags[i]);
        }
        lemma_port_mapping_count(frags.drop_last());
        assert(trim_set(frags.last(), whitespace()) == trim_set(
            frags[frags.len() - 1],
            whitespace(),
        ));
    }
}

/// The raw comma fragments of a listing line's ports field.
pub open spec fn line_frags(line: Seq<char>) -> Seq<Seq<char>> {
    split_any(split_any(strip_quotes(line), seq![';'])[1], seq![','])
}

/// As `lemma_port_mapping_count`, stated of a whole listing line: a line
/// with at least four fields parses, and its record has exactly one port
/// mapping per `>`-bearing comma fragment of the ports field.
pub proof fn lemma_line_port_count(line: Seq<char>)
    requires
        split_any(strip_quotes(line), seq![';']).len() >= 4,
        forall|i: int|
            0 <= i < line_frags(line).len() ==> ((#[trigger] trim_set(
                line_frags(line)[i],
                whitespace(),
            )).contains('>') ==> spec_parse_fragment(trim_set(line_frags(line)[i], whitespace()))
                is Some),
    ensures
        spec_parse_line(line) is Some,
        spec_parse_line(line).unwrap().ports.len() == count_mapped(line_frags(line)),
{
    lemma_port_mapping_count(line_frags(line));
}

/// A ports field none of whose fragments bears a `>` contributes no
/// mapping at all, well formed or not.
pub proof fn lemma_no_mapped_fragments(frags: Seq<Seq<char>>)
    requires
        forall|i: int|
            0 <= i < frags.len() ==> !(#[trigger] trim_set(frags[i], whitespace())).contains('>'),
    ensures
        spec_ports_of(frags).len() == 0,
    decreases frags.len(),
{
    if frags.len() > 0 {
        assert forall|i: int| 0 <= i < frags.drop_last().len() implies !(#[trigger] trim_set(
            frags.drop_last()[i],
            whitespace(),
        )).contains('>') by {
            assert(frags.drop_last()[i] == frags[i]);
        }
        lemma_no_mapped_fragments(frags.drop_last());
        assert(trim_set(frags.last(), whitespace()) == trim_set(
            frags[frags.len() - 1],
            whitespace(),
        ));
    }
}

/// A container without port mappings renders the literal `No ports
/// exposed` placeholder in its card view and an empty list in its row
/// view, whatever its other fields hold.
pub proof fn lemma_portless_rendering(c: ContainerModel, host: Seq<char>)
    requires
        c.ports.len() == 0,
    ensures
        card_ports_view(c.ports, host) == "No ports exposed"@,
        ul_view(c.ports) == "<ul>"@ + "</ul>"@,
{
    assert(ul_items(c.ports) =~= Seq::<char>::empty());
    assert("<ul>"@ + ul_items(c.ports) + "</ul>"@ =~= "<ul>"@ + "</ul>"@);
}

/// Parsing is a pure function of the line's characters: reading the same
/// raw line twice yields structurally equal records.
pub proof fn lemma_parse_idempotent(a: Seq<char>, b: Seq<char>)
    requires
        a == b,
    ensures
        spec_parse_line(a) == spec_parse_line(b),
{
}

} // verus!
