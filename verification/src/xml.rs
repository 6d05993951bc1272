//! The structured payload of a record, as a tree of elements.  Parsing the
//! document text is delegated to the XML crate behind a trusted bridge whose
//! result is named: with attributes kept in document order, the parsed tree
//! is a function of the text alone.  Every walk over the tree — child
//! lookup, attribute lookup, text collection — is verified here, specified
//! over the tree's mathematical value.

use vstd::prelude::*;

use crate::strutil::str_eq;

verus! {

/// One element: its tag name, attributes, and child content, all in
/// document order.
#[derive(Debug)]
pub struct XmlElement {
    pub name: String,
    pub attributes: Vec<(String, String)>,
    pub children: Vec<XmlContent>,
}

/// Child content of an element: a nested element, or a run of character
/// data.
#[derive(Debug)]
pub enum XmlContent {
    Node(XmlElement),
    Text(String),
}

/// The mathematical value of an element.
pub struct XmlNodeView {
    pub name: Seq<char>,
    pub attributes: Seq<(Seq<char>, Seq<char>)>,
    pub children: Seq<XmlContentView>,
}

/// The mathematical value of child content.
pub enum XmlContentView {
    Node(XmlNodeView),
    Text(Seq<char>),
}

/// The mathematical value of an attribute list.
pub open spec fn attrs_view(attrs: Seq<(String, String)>) -> Seq<(Seq<char>, Seq<char>)> {
    Seq::new(attrs.len(), |i: int| (attrs[i].0@, attrs[i].1@))
}

/// The mathematical value of one child.
pub open spec fn content_view(c: XmlContent) -> XmlContentView
    decreases c,
{
    match c {
        XmlContent::Node(el) => XmlContentView::Node(node_view(el)),
        XmlContent::Text(t) => XmlContentView::Text(t@),
    }
}

/// The mathematical value of a child list.
pub open spec fn contents_view(cs: Seq<XmlContent>) -> Seq<XmlContentView> {
    Seq::new(cs.len(), |i: int| content_view(cs[i]))
}

/// The mathematical value of an element tree.
pub open spec fn node_view(e: XmlElement) -> XmlNodeView
    decreases e,
    via node_view_decreases
{
    XmlNodeView {
        name: e.name@,
        attributes: attrs_view(e.attributes@),
        // The closure is total over all indices; the guard keeps the
        // recursion inside the tree, and the out-of-range value is never
        // read by the sequence.
        children: Seq::new(
            e.children@.len(),
            |i: int|
                if 0 <= i < e.children@.len() {
                    content_view(e.children@[i])
                } else {
                    XmlContentView::Text(Seq::empty())
                },
        ),
    }
}

#[via_fn]
proof fn node_view_decreases(e: XmlElement) {
    broadcast use vstd::seq::axiom_seq_index_decreases, vstd::std_specs::vec::group_vec_axioms;

    assert forall|i: int| 0 <= i < e.children@.len() implies #[trigger] (decreases_to!(
        e => e.children@[i])) by {
        assert(decreases_to!(e => e.children));
        assert(decreases_to!(e.children => e.children@));
        assert(decreases_to!(e.children@ => e.children@[i]));
    }
}

/// The first child element carrying the given tag name.
pub open spec fn spec_find_child(cs: Seq<XmlContentView>, name: Seq<char>) -> Option<XmlNodeView>
    decreases cs.len(),
{
    if cs.len() == 0 {
        None
    } else {
        match cs[0] {
            XmlContentView::Node(el) => if el.name == name {
                Some(el)
            } else {
                spec_find_child(cs.drop_first(), name)
            },
            XmlContentView::Text(_) => spec_find_child(cs.drop_first(), name),
        }
    }
}

/// The value of the first attribute carrying the given name.
pub open spec fn spec_get_attr(attrs: Seq<(Seq<char>, Seq<char>)>, name: Seq<char>) -> Option<
    Seq<char>,
>
    decreases attrs.len(),
{
    if attrs.len() == 0 {
        None
    } else if attrs[0].0 == name {
        Some(attrs[0].1)
    } else {
        spec_get_attr(attrs.drop_first(), name)
    }
}

/// Whether the content list holds any character data.
pub open spec fn spec_has_text(cs: Seq<XmlContentView>) -> bool {
    exists|i: int| 0 <= i < cs.len() && (#[trigger] cs[i]) is Text
}

/// All character data of the content list, concatenated in document order.
pub open spec fn spec_text(cs: Seq<XmlContentView>) -> Seq<char>
    decreases cs.len(),
{
    if cs.len() == 0 {
        Seq::empty()
    } else {
        (match cs[0] {
            XmlContentView::Text(t) => t,
            XmlContentView::Node(_) => Seq::empty(),
        }) + spec_text(cs.drop_first())
    }
}

impl XmlElement {
    /// The first child element with the given tag name.
    pub fn get_child(&self, name: &str) -> (r: Option<&XmlElement>)
        ensures
            match r {
                Some(e) => spec_find_child(contents_view(self.children@), name@) == Some(
                    node_view(*e),
                ),
                None => spec_find_child(contents_view(self.children@), name@) is None,
            },
    {
        let ghost cv = contents_view(self.children@);
        let n = self.children.len();
        let mut i: usize = 0;
        proof {
            assert(cv.skip(0) =~= cv);
        }
        while i < n
            invariant
                i <= n,
                n == self.children@.len(),
                cv == contents_view(self.children@),
                spec_find_child(cv, name@) == spec_find_child(cv.skip(i as int), name@),
            decreases n - i,
        {
            proof {
                assert(cv.skip(i as int)[0] == cv[i as int]);
                assert(cv[i as int] == content_view(self.children@[i as int]));
                assert(cv.skip(i as int).drop_first() =~= cv.skip(i + 1));
            }
            match &self.children[i] {
                XmlContent::Node(el) => {
                    if str_eq(el.name.as_str(), name) {
                        return Some(el);
                    }
                },
                XmlContent::Text(_) => {},
            }
            i = i + 1;
        }
        proof {
            assert(cv.skip(n as int) =~= Seq::<XmlContentView>::empty());
        }
        None
    }

    /// The value of the first attribute with the given name.
    pub fn get_attr(&self, name: &str) -> (r: Option<&String>)
        ensures
            match r {
                Some(v) => spec_get_attr(attrs_view(self.attributes@), name@) == Some(v@),
                None => spec_get_attr(attrs_view(self.attributes@), name@) is None,
            },
    {
        let ghost av = attrs_view(self.attributes@);
        let n = self.attributes.len();
        let mut i: usize = 0;
        proof {
            assert(av.skip(0) =~= av);
        }
        while i < n
            invariant
                i <= n,
                n == self.attributes@.len(),
                av == attrs_view(self.attributes@),
                spec_get_attr(av, name@) == spec_get_attr(av.skip(i as int), name@),
            decreases n - i,
        {
            proof {
                assert(av.skip(i as int)[0] == av[i as int]);
                assert(av.skip(i as int).drop_first() =~= av.skip(i + 1));
            }
            if str_eq(self.attributes[i].0.as_str(), name) {
                return Some(&self.attributes[i].1);
            }
            i = i + 1;
        }
        proof {
            assert(av.skip(n as int) =~= Seq::<(Seq<char>, Seq<char>)>::empty());
        }
        None
    }

    /// The element's character data, concatenated; `None` when it has no
    /// text or character-data child at all.
    pub fn get_text(&self) -> (r: Option<String>)
        ensures
            match r {
                Some(t) => spec_has_text(contents_view(self.children@)) && t@ == spec_text(
                    contents_view(self.children@),
                ),
                None => !spec_has_text(contents_view(self.children@)),
            },
    {
        let ghost cv = contents_view(self.children@);
        let n = self.children.len();
        let mut out = String::new();
        let mut found = false;
        let mut i: usize = 0;
        proof {
            assert(cv.skip(0) =~= cv);
            assert(Seq::<char>::empty() + spec_text(cv) =~= spec_text(cv));
            assert(cv.take(0) =~= Seq::<XmlContentView>::empty());
        }
        while i < n
            invariant
                i <= n,
                n == self.children@.len(),
                cv == contents_view(self.children@),
                spec_text(cv) == out@ + spec_text(cv.skip(i as int)),
                found == spec_has_text(cv.take(i as int)),
            decreases n - i,
        {
            let ghost pre = out@;
            proof {
                assert(cv.skip(i as int)[0] == cv[i as int]);
                assert(cv[i as int] == content_view(self.children@[i as int]));
                assert(cv.skip(i as int).drop_first() =~= cv.skip(i + 1));
                assert(cv.take(i + 1).drop_last() =~= cv.take(i as int));
                assert(cv.take(i + 1).last() == cv[i as int]);
            }
            match &self.children[i] {
                XmlContent::Text(t) => {
                    out.append(t.as_str());
                    found = true;
                    proof {
                        assert(cv.take(i + 1)[i as int] is Text);
                        assert(spec_has_text(cv.take(i + 1)));
                        assert(pre + (t@ + spec_text(cv.skip(i + 1))) =~= out@ + spec_text(
                            cv.skip(i + 1),
                        ));
                    }
                },
                XmlContent::Node(_) => {
                    proof {
                        assert(pre + (Seq::<char>::empty() + spec_text(cv.skip(i + 1))) =~= out@
                            + spec_text(cv.skip(i + 1)));
                        if spec_has_text(cv.take(i + 1)) {
                            let w = choose|k: int|
                                0 <= k < cv.take(i + 1).len() && (#[trigger] cv.take(i + 1)[k])
                                    is Text;
                            assert(cv.take(i as int)[w] is Text);
                        }
                    }
                },
            }
            i = i + 1;
        }
        proof {
            assert(cv.skip(n as int) =~= Seq::<XmlContentView>::empty());
            assert(out@ + Seq::<char>::empty() =~= out@);
            assert(cv.take(n as int) =~= cv);
        }
        if found {
            Some(out)
        } else {
            None
        }
    }
}

/// An element's view lists exactly its children's views.
pub proof fn lemma_node_view_children(e: XmlElement)
    ensures
        node_view(e).children == contents_view(e.children@),
{
    assert(node_view(e).children =~= contents_view(e.children@));
}

/// A list with no text child concatenates to nothing.
pub proof fn lemma_no_text_empty(cs: Seq<XmlContentView>)
    requires
        !spec_has_text(cs),
    ensures
        spec_text(cs) == Seq::<char>::empty(),
    decreases cs.len(),
{
    if cs.len() > 0 {
        assert(!(cs[0] is Text));
        assert forall|i: int| 0 <= i < cs.drop_first().len() implies !((
        #[trigger] cs.drop_first()[i]) is Text) by {
            assert(cs[i + 1] == cs.drop_first()[i]);
        }
        lemma_no_text_empty(cs.drop_first());
        assert(spec_text(cs) =~= Seq::<char>::empty());
    } else {
        assert(spec_text(cs) =~= Seq::<char>::empty());
    }
}

#[verifier::external_type_specification]
#[verifier::external_body]
pub struct ExElement(xmltree::Element);

/// The tree a payload text parses to, if it parses at all.  The parse is a
/// function of the text alone — attributes are kept in document order — so
/// its outcome carries this name; what the tree is for any given text is
/// nowhere assumed, only computed by the call below.
pub uninterp spec fn spec_parse_doc(text: Seq<char>) -> Option<XmlNodeView>;

/// Converts one parsed element into the library's tree, node for node.
/// Relies on xmltree::Element's public fields: tag name, attributes in
/// document order, and children in document order (text and character data
/// kept, comments and processing instructions dropped).  Serves `parse_xml`
/// below on its result.
#[verifier::external_body]
fn element_to_node(e: &xmltree::Element) -> XmlElement {
    XmlElement {
        name: e.name.clone(),
        attributes: e.attributes.iter().map(|(k, v)| (k.clone(), v.clone())).collect(),
        children: e.children.iter().filter_map(|c| match c {
            xmltree::XMLNode::Element(el) => Some(XmlContent::Node(element_to_node(el))),
            xmltree::XMLNode::Text(t) => Some(XmlContent::Text(t.clone())),
            xmltree::XMLNode::CData(t) => Some(XmlContent::Text(t.clone())),
            _ => None,
        }).collect(),
    }
}

/// Relies on xmltree::Element::parse: it parses one document from the
/// text's bytes, failing on ill-formed input, and both it and the
/// conversion above depend on the text alone.  So the outcome is exactly
/// `spec_parse_doc` of the text: `None` where that is `None`, else the tree
/// whose value the name denotes.
#[verifier::external_body]
pub(crate) fn parse_xml(text: &str) -> (r: Option<XmlElement>)
    ensures
        match r {
            Some(d) => spec_parse_doc(text@) == Some(node_view(d)),
            None => spec_parse_doc(text@) is None,
        },
{
    match xmltree::Element::parse(text.as_bytes()) {
        Ok(e) => Some(element_to_node(&e)),
        Err(_) => None,
    }
}

} // verus!
