//! The tabular export: one row per record, the system section's fields
//! flattened in document order under deduplicated headers, a single-line
//! excerpt of the rendered message, and the payload text with its line
//! breaks replaced by a separator.  Writing the rows out is the caller's
//! business; computing them is specified and verified here.

use vstd::prelude::*;

use crate::events::{EvtEvent, spec_system};
use crate::strutil::{push_char, str_eq, vec_contains_str};
use crate::xml::{XmlContent, XmlContentView, XmlElement, XmlNodeView, contents_view,
    lemma_node_view_children, node_view, parse_xml, spec_find_child, spec_get_attr,
    spec_parse_doc, spec_text};

verus! {

/// An attribute of a named child of the system section; empty when either
/// is absent.
pub open spec fn spec_child_attr(sys: XmlNodeView, child: Seq<char>, attr: Seq<char>) -> Seq<
    char,
> {
    match spec_find_child(sys.children, child) {
        Some(e) => match spec_get_attr(e.attributes, attr) {
            Some(v) => v,
            None => Seq::empty(),
        },
        None => Seq::empty(),
    }
}

/// The cell one system child contributes: the known attribute-carrying
/// fields read their attribute off the section's first child of that name,
/// everything else its own text.
pub open spec fn spec_child_value(sys: XmlNodeView, el: XmlNodeView) -> Seq<char> {
    if el.name == "Provider"@ {
        spec_child_attr(sys, "Provider"@, "Name"@)
    } else if el.name == "TimeCreated"@ {
        spec_child_attr(sys, "TimeCreated"@, "SystemTime"@)
    } else if el.name == "Correlation"@ {
        spec_child_attr(sys, "Correlation"@, "ActivityID"@)
    } else if el.name == "Execution"@ {
        spec_child_attr(sys, "Execution"@, "ProcessID"@)
    } else {
        spec_text(el.children)
    }
}

/// Whether the section holds element children only.
pub open spec fn all_elements(cs: Seq<XmlContentView>) -> bool {
    forall|i: int| 0 <= i < cs.len() ==> (#[trigger] cs[i]) is Node
}

/// The cells of the element children, in document order.
pub open spec fn spec_row_values(sys: XmlNodeView, cs: Seq<XmlContentView>) -> Seq<Seq<char>>
    decreases cs.len(),
{
    if cs.len() == 0 {
        Seq::empty()
    } else {
        let prev = spec_row_values(sys, cs.drop_last());
        match cs.last() {
            XmlContentView::Node(el) => prev.push(spec_child_value(sys, el)),
            XmlContentView::Text(_) => prev,
        }
    }
}

/// The element children's tag names, first appearances only, in order.
pub open spec fn spec_headers(cs: Seq<XmlContentView>) -> Seq<Seq<char>>
    decreases cs.len(),
{
    if cs.len() == 0 {
        Seq::empty()
    } else {
        let prev = spec_headers(cs.drop_last());
        match cs.last() {
            XmlContentView::Node(el) => if prev.contains(el.name) {
                prev
            } else {
                prev.push(el.name)
            },
            XmlContentView::Text(_) => prev,
        }
    }
}

/// A header appended unless already present.
pub open spec fn spec_append_missing(hs: Seq<Seq<char>>, h: Seq<char>) -> Seq<Seq<char>> {
    if hs.contains(h) {
        hs
    } else {
        hs.push(h)
    }
}

/// The position a character first occurs at, or -1.
pub open spec fn spec_first_index(s: Seq<char>, c: char) -> int
    decreases s.len(),
{
    if s.len() == 0 {
        -1
    } else if s[0] == c {
        0
    } else {
        let r = spec_first_index(s.drop_first(), c);
        if r < 0 {
            -1
        } else {
            1 + r
        }
    }
}

/// The first line of a text: up to the first line feed, a trailing carriage
/// return dropped; `None` of an empty text.
pub open spec fn spec_first_line(s: Seq<char>) -> Option<Seq<char>> {
    if s.len() == 0 {
        None
    } else {
        let j = spec_first_index(s, '\n');
        let line = if j < 0 {
            s
        } else {
            s.take(j)
        };
        if line.len() > 0 && line.last() == '\r' {
            Some(line.drop_last())
        } else {
            Some(line)
        }
    }
}

/// "\r\n" pairs collapsed to one separator character.
pub open spec fn spec_strip_crlf(s: Seq<char>) -> Seq<char>
    decreases s.len(),
{
    if s.len() >= 2 && s[0] == '\r' && s[1] == '\n' {
        seq!['|'] + spec_strip_crlf(s.skip(2))
    } else if s.len() == 0 {
        Seq::empty()
    } else {
        seq![s[0]] + spec_strip_crlf(s.drop_first())
    }
}

/// The payload text on one line: both line break conventions replaced by
/// the separator.
pub open spec fn spec_pipe_xml(s: Seq<char>) -> Seq<char> {
    spec_strip_crlf(s).map_values(
        |c: char|
            if c == '\n' {
                '|'
            } else {
                c
            },
    )
}

/// The full header list of one record's row.
pub open spec fn spec_csv_headers(cs: Seq<XmlContentView>) -> Seq<Seq<char>> {
    spec_append_missing(spec_append_missing(spec_headers(cs), "Message"@), "XML"@)
}

/// The full cell list of one record's row.
pub open spec fn spec_csv_cells(
    sys: XmlNodeView,
    msg: Seq<char>,
    xml: Seq<char>,
) -> Seq<Seq<char>> {
    spec_row_values(sys, sys.children) + (match spec_first_line(msg) {
        Some(l) => seq![l],
        None => Seq::<Seq<char>>::empty(),
    }) + seq![spec_pipe_xml(xml)]
}

/// What flattening yields for one parsed payload: the header and cell
/// lists, or nothing when the payload lacks a system section or holds loose
/// character data among its fields.
pub open spec fn spec_row_outcome(
    r: Option<(Seq<Seq<char>>, Seq<Seq<char>>)>,
    doc: XmlNodeView,
    msg: Seq<char>,
    xml: Seq<char>,
) -> bool {
    match r {
        Some(p) => {
            &&& spec_system(doc) matches Some(sys) && {
                &&& all_elements(sys.children)
                &&& p.0 == spec_csv_headers(sys.children)
                &&& p.1 == spec_csv_cells(sys, msg, xml)
            }
        },
        None => match spec_system(doc) {
            Some(sys) => !all_elements(sys.children),
            None => true,
        },
    }
}

proof fn lemma_first_index_none(s: Seq<char>, c: char)
    requires
        forall|k: int| 0 <= k < s.len() ==> #[trigger] s[k] != c,
    ensures
        spec_first_index(s, c) == -1,
    decreases s.len(),
{
    if s.len() > 0 {
        assert forall|k: int| 0 <= k < s.drop_first().len() implies #[trigger] s.drop_first()[k]
            != c by {
            assert(s.drop_first()[k] == s[k + 1]);
        }
        lemma_first_index_none(s.drop_first(), c);
    }
}

proof fn lemma_first_index_at(s: Seq<char>, c: char, j: int)
    requires
        0 <= j < s.len(),
        s[j] == c,
        forall|k: int| 0 <= k < j ==> #[trigger] s[k] != c,
    ensures
        spec_first_index(s, c) == j,
    decreases s.len(),
{
    if j > 0 {
        assert forall|k: int| 0 <= k < j - 1 implies #[trigger] s.drop_first()[k] != c by {
            assert(s.drop_first()[k] == s[k + 1]);
        }
        assert(s.drop_first()[j - 1] == s[j]);
        lemma_first_index_at(s.drop_first(), c, j - 1);
    }
}

/// The position a character first occurs at.
fn find_char(s: &str, c: char) -> (r: Option<usize>)
    ensures
        match r {
            Some(j) => j < s@.len() && spec_first_index(s@, c) == j,
            None => spec_first_index(s@, c) == -1,
        },
{
    let n = s.unicode_len();
    let mut i: usize = 0;
    while i < n
        invariant
            i <= n,
            n == s@.len(),
            forall|k: int| 0 <= k < i ==> #[trigger] s@[k] != c,
        decreases n - i,
    {
        if s.get_char(i) == c {
            proof {
                lemma_first_index_at(s@, c, i as int);
            }
            return Some(i);
        }
        i = i + 1;
    }
    proof {
        lemma_first_index_none(s@, c);
    }
    None
}

/// The first line of a rendered message; `None` of an empty one.
pub fn first_line(s: &str) -> (r: Option<String>)
    ensures
        match (r, spec_first_line(s@)) {
            (Some(a), Some(b)) => a@ == b,
            (None, None) => true,
            _ => false,
        },
{
    let n = s.unicode_len();
    if n == 0 {
        return None;
    }
    let j = match find_char(s, '\n') {
        Some(j) => j,
        None => n,
    };
    let line = s.substring_char(0, j);
    proof {
        assert(line@ =~= (if spec_first_index(s@, '\n') < 0 {
            s@
        } else {
            s@.take(spec_first_index(s@, '\n'))
        }));
    }
    let m = line.unicode_len();
    if m > 0 && line.get_char(m - 1) == '\r' {
        let cut = line.substring_char(0, m - 1);
        proof {
            assert(cut@ =~= line@.drop_last());
        }
        Some(String::from_str(cut))
    } else {
        Some(String::from_str(line))
    }
}

fn strip_crlf(s: &str) -> (r: String)
    ensures
        r@ == spec_strip_crlf(s@),
{
    let n = s.unicode_len();
    let mut out = String::new();
    let mut i: usize = 0;
    proof {
        assert(s@.skip(0) =~= s@);
        assert(Seq::<char>::empty() + spec_strip_crlf(s@) =~= spec_strip_crlf(s@));
    }
    while i < n
        invariant
            i <= n,
            n == s@.len(),
            spec_strip_crlf(s@) == out@ + spec_strip_crlf(s@.skip(i as int)),
        decreases n - i,
    {
        let ghost tail = s@.skip(i as int);
        let ghost pre = out@;
        proof {
            assert(tail[0] == s@[i as int]);
            if tail.len() >= 2 {
                assert(tail[1] == s@[i + 1]);
            }
        }
        let c = s.get_char(i);
        if c == '\r' && i + 1 < n && s.get_char(i + 1) == '\n' {
            push_char(&mut out, '|');
            proof {
                assert(tail.skip(2) =~= s@.skip(i + 2));
                assert(pre + (seq!['|'] + spec_strip_crlf(tail.skip(2))) =~= out@
                    + spec_strip_crlf(tail.skip(2)));
            }
            i = i + 2;
        } else {
            push_char(&mut out, c);
            proof {
                assert(tail.drop_first() =~= s@.skip(i + 1));
                assert(pre + (seq![tail[0]] + spec_strip_crlf(tail.drop_first())) =~= out@
                    + spec_strip_crlf(tail.drop_first()));
            }
            i = i + 1;
        }
    }
    proof {
        assert(s@.skip(n as int) =~= Seq::<char>::empty());
        assert(out@ + Seq::<char>::empty() =~= out@);
    }
    out
}

fn replace_char(s: &str, from: char, to: char) -> (r: String)
    ensures
        r@ == s@.map_values(
            |c: char|
                if c == from {
                    to
                } else {
                    c
                },
        ),
{
    let n = s.unicode_len();
    let mut out = String::new();
    let mut i: usize = 0;
    proof {
        assert(out@ =~= s@.take(0).map_values(
            |c: char|
                if c == from {
                    to
                } else {
                    c
                },
        ));
    }
    while i < n
        invariant
            i <= n,
            n == s@.len(),
            out@ == s@.take(i as int).map_values(
                |c: char|
                    if c == from {
                        to
                    } else {
                        c
                    },
            ),
        decreases n - i,
    {
        let c = s.get_char(i);
        if c == from {
            push_char(&mut out, to);
        } else {
            push_char(&mut out, c);
        }
        proof {
            assert(out@ =~= s@.take(i + 1).map_values(
                |c: char|
                    if c == from {
                        to
                    } else {
                        c
                    },
            ));
        }
        i = i + 1;
    }
    proof {
        assert(s@.take(n as int) =~= s@);
    }
    out
}

/// The payload text with both line break conventions replaced by the
/// separator character.
pub fn pipe_xml(s: &str) -> (r: String)
    ensures
        r@ == spec_pipe_xml(s@),
{
    let stripped = strip_crlf(s);
    replace_char(stripped.as_str(), '\n', '|')
}

fn child_attr(sys: &XmlElement, child: &str, attr: &str) -> (r: String)
    ensures
        r@ == spec_child_attr(node_view(*sys), child@, attr@),
{
    proof {
        lemma_node_view_children(*sys);
    }
    match sys.get_child(child) {
        Some(e) => match e.get_attr(attr) {
            Some(v) => v.clone(),
            None => String::new(),
        },
        None => String::new(),
    }
}

/// One record's flattened row: the headers and the cells, cell for cell as
/// the specification gives them over the parsed payload's value.
pub fn csv_row_from_document(doc: &XmlElement, message: &str, xml: &str) -> (r: Option<
    (Vec<String>, Vec<String>),
>)
    ensures
        match r {
            Some(p) => spec_row_outcome(
                Some(
                    (p.0@.map_values(|t: String| t@), p.1@.map_values(|t: String| t@)),
                ),
                node_view(*doc),
                message@,
                xml@,
            ),
            None => spec_row_outcome(None, node_view(*doc), message@, xml@),
        },
{
    proof {
        lemma_node_view_children(*doc);
    }
    let sys = match doc.get_child("System") {
        Some(s) => s,
        None => {
            return None;
        },
    };
    proof {
        lemma_node_view_children(*sys);
    }
    let ghost sv = node_view(*sys);
    let ghost cv = contents_view(sys.children@);
    let n = sys.children.len();
    let mut headers: Vec<String> = Vec::new();
    let mut cells: Vec<String> = Vec::new();
    let mut i: usize = 0;
    proof {
        assert(cv.take(0) =~= Seq::<XmlContentView>::empty());
        assert(headers@.map_values(|t: String| t@) =~= spec_headers(cv.take(0)));
        assert(cells@.map_values(|t: String| t@) =~= spec_row_values(sv, cv.take(0)));
    }
    while i < n
        invariant
            i <= n,
            n == sys.children@.len(),
            cv == contents_view(sys.children@),
            sv == node_view(*sys),
            sv.children == cv,
            spec_system(node_view(*doc)) == Some(sv),
            headers@.map_values(|t: String| t@) == spec_headers(cv.take(i as int)),
            cells@.map_values(|t: String| t@) == spec_row_values(sv, cv.take(i as int)),
            all_elements(cv.take(i as int)),
        decreases n - i,
    {
        let ghost hs = headers@.map_values(|t: String| t@);
        let ghost vs = cells@.map_values(|t: String| t@);
        proof {
            assert(cv.take(i + 1).drop_last() =~= cv.take(i as int));
            assert(cv.take(i + 1).last() == cv[i as int]);
            assert(cv[i as int] == crate::xml::content_view(sys.children@[i as int]));
        }
        match &sys.children[i] {
            XmlContent::Node(el) => {
                let value: String = if str_eq(el.name.as_str(), "Provider") {
                    child_attr(sys, "Provider", "Name")
                } else if str_eq(el.name.as_str(), "TimeCreated") {
                    child_attr(sys, "TimeCreated", "SystemTime")
                } else if str_eq(el.name.as_str(), "Correlation") {
                    child_attr(sys, "Correlation", "ActivityID")
                } else if str_eq(el.name.as_str(), "Execution") {
                    child_attr(sys, "Execution", "ProcessID")
                } else {
                    proof {
                        lemma_node_view_children(*el);
                    }
                    match el.get_text() {
                        Some(t) => t,
                        None => {
                            proof {
                                crate::xml::lemma_no_text_empty(contents_view(el.children@));
                            }
                            String::new()
                        },
                    }
                };
                proof {
                    assert(value@ == spec_child_value(sv, node_view(*el)));
                }
                if !vec_contains_str(&headers, el.name.as_str()) {
                    headers.push(el.name.clone());
                    proof {
                        assert(headers@.map_values(|t: String| t@) =~= hs.push(el.name@));
                    }
                }
                cells.push(value);
                proof {
                    assert(cells@.map_values(|t: String| t@) =~= vs.push(spec_child_value(
                        sv,
                        node_view(*el),
                    )));
                    assert forall|k: int| 0 <= k < i + 1 implies (#[trigger] cv.take(i + 1)[k])
                        is Node by {
                        assert(cv.take(i + 1)[k] == cv.take(i as int)[k] || cv.take(i + 1)[k]
                            == cv[i as int]);
                    }
                }
            },
            XmlContent::Text(_) => {
                proof {
                    assert(!((#[trigger] cv[i as int]) is Node));
                    assert(!all_elements(cv));
                }
                return None;
            },
        }
        i = i + 1;
    }
    proof {
        assert(cv.take(n as int) =~= cv);
    }
    let ghost hs = headers@.map_values(|t: String| t@);
    if !vec_contains_str(&headers, "Message") {
        headers.push(String::from_str("Message"));
        proof {
            assert(headers@.map_values(|t: String| t@) =~= hs.push("Message"@));
        }
    }
    match first_line(message) {
        Some(l) => {
            let ghost vs = cells@.map_values(|t: String| t@);
            cells.push(l);
            proof {
                assert(cells@.map_values(|t: String| t@) =~= vs.push(
                    spec_first_line(message@)->0,
                ));
                assert(vs + seq![spec_first_line(message@)->0] =~= vs.push(
                    spec_first_line(message@)->0,
                ));
            }
        },
        None => {
            proof {
                let vs = cells@.map_values(|t: String| t@);
                assert(vs + Seq::<Seq<char>>::empty() =~= vs);
            }
        },
    }
    let ghost hs2 = headers@.map_values(|t: String| t@);
    if !vec_contains_str(&headers, "XML") {
        headers.push(String::from_str("XML"));
        proof {
            assert(headers@.map_values(|t: String| t@) =~= hs2.push("XML"@));
        }
    }
    let piped = pipe_xml(xml);
    let ghost vs2 = cells@.map_values(|t: String| t@);
    cells.push(piped);
    proof {
        assert(cells@.map_values(|t: String| t@) =~= vs2.push(spec_pipe_xml(xml@)));
        assert(vs2 + seq![spec_pipe_xml(xml@)] =~= vs2.push(spec_pipe_xml(xml@)));
    }
    Some((headers, cells))
}

/// One record's flattened row, from the record itself: its payload text is
/// parsed afresh, so the outcome is pinned by the text's named parse — no
/// row exactly when the text does not parse or does not flatten, else the
/// headers and cells the parsed tree's value gives.
pub fn csv_row(event: &EvtEvent) -> (r: Option<(Vec<String>, Vec<String>)>)
    ensures
        match r {
            Some(p) => spec_parse_doc(event@.xml) matches Some(doc) && spec_row_outcome(
                Some(
                    (p.0@.map_values(|t: String| t@), p.1@.map_values(|t: String| t@)),
                ),
                doc,
                event@.message,
                event@.xml,
            ),
            None => match spec_parse_doc(event@.xml) {
                Some(doc) => spec_row_outcome(None, doc, event@.message, event@.xml),
                None => true,
            },
        },
{
    let xml = event.get_xml();
    let message = event.get_event_message();
    match parse_xml(xml.as_str()) {
        Some(doc) => csv_row_from_document(&doc, message.as_str(), xml.as_str()),
        None => None,
    }
}

} // verus!
