//! One collected record: the envelope fields read out of its structured
//! payload, the rendered message, and the keyword names the renderer
//! supplied.  The payload text itself is kept verbatim for the raw export.

use vstd::prelude::*;

use crate::strutil::{parse_u32, spec_parse_u32};
use crate::xml::{XmlContent, XmlContentView, XmlElement, XmlNodeView, contents_view, node_view,
    parse_xml, spec_find_child, spec_get_attr, spec_has_text, spec_parse_doc, spec_text};

verus! {

/// Why a record could not be taken in.  Either way the record is skipped and
/// the run goes on.
#[derive(Debug, Clone, Copy, PartialEq, Eq, Structural)]
pub enum EvtError {
    /// The structured payload is not well-formed, or lacks the record-id
    /// element.
    MalformedPayload,
    /// The record-id text does not denote a 32-bit number.
    InvalidRecordId,
}

/// One record, envelope fields resolved.
#[derive(Debug, Clone, PartialEq)]
pub struct EvtEvent {
    channel: String,
    provider: String,
    xml: String,
    time_written: String,
    record_id: u32,
    message: String,
    keywords: Vec<String>,
}

/// The mathematical value of an `EvtEvent`.
pub struct EvtEventView {
    pub channel: Seq<char>,
    pub provider: Seq<char>,
    pub xml: Seq<char>,
    pub time_written: Seq<char>,
    pub record_id: u32,
    pub message: Seq<char>,
    pub keywords: Seq<Seq<char>>,
}

impl View for EvtEvent {
    type V = EvtEventView;

    closed spec fn view(&self) -> EvtEventView {
        EvtEventView {
            channel: self.channel@,
            provider: self.provider@,
            xml: self.xml@,
            time_written: self.time_written@,
            record_id: self.record_id,
            message: self.message@,
            keywords: self.keywords@.map_values(|s: String| s@),
        }
    }
}

/// The payload's system section.
pub open spec fn spec_system(doc: XmlNodeView) -> Option<XmlNodeView> {
    spec_find_child(doc.children, "System"@)
}

/// The provider name declared in the system section; empty when absent.
pub open spec fn spec_provider_name(sys: XmlNodeView) -> Seq<char> {
    match spec_find_child(sys.children, "Provider"@) {
        Some(p) => match spec_get_attr(p.attributes, "Name"@) {
            Some(v) => v,
            None => Seq::empty(),
        },
        None => Seq::empty(),
    }
}

/// The channel name in the system section; empty when absent.
pub open spec fn spec_channel_text(sys: XmlNodeView) -> Seq<char> {
    match spec_find_child(sys.children, "Channel"@) {
        Some(c) => spec_text(c.children),
        None => Seq::empty(),
    }
}

/// The creation timestamp in the system section; the epoch text when absent.
pub open spec fn spec_time_created(sys: XmlNodeView) -> Seq<char> {
    match spec_find_child(sys.children, "TimeCreated"@) {
        Some(tc) => match spec_get_attr(tc.attributes, "SystemTime"@) {
            Some(v) => v,
            None => "1970-01-01T00:00:00.0000000Z"@,
        },
        None => "1970-01-01T00:00:00.0000000Z"@,
    }
}

/// The record-id element of the system section.
pub open spec fn spec_record_elem(sys: XmlNodeView) -> Option<XmlNodeView> {
    spec_find_child(sys.children, "EventRecordID"@)
}

/// The keyword names under the rendering section: the text of each child
/// element that has any, in document order.
pub open spec fn spec_keyword_texts(cs: Seq<XmlContentView>) -> Seq<Seq<char>>
    decreases cs.len(),
{
    if cs.len() == 0 {
        Seq::empty()
    } else {
        let rest = spec_keyword_texts(cs.drop_first());
        match cs[0] {
            XmlContentView::Node(el) => if spec_has_text(el.children) {
                seq![spec_text(el.children)] + rest
            } else {
                rest
            },
            XmlContentView::Text(_) => rest,
        }
    }
}

/// The rendered keyword names of the whole payload; empty without a
/// rendering section.
pub open spec fn spec_rendering_keywords(doc: XmlNodeView) -> Seq<Seq<char>> {
    match spec_find_child(doc.children, "RenderingInfo"@) {
        Some(ri) => match spec_find_child(ri.children, "Keywords"@) {
            Some(kw) => spec_keyword_texts(kw.children),
            None => Seq::empty(),
        },
        None => Seq::empty(),
    }
}

/// What taking in a record yields for one parsed payload: its envelope, or
/// the error that names what is wrong.
pub open spec fn spec_envelope_outcome(r: Result<EvtEventView, EvtError>, doc: XmlNodeView) -> bool {
    match r {
        Ok(ev) => {
            &&& spec_system(doc) matches Some(sys) && {
                &&& ev.provider == spec_provider_name(sys)
                &&& ev.channel == spec_channel_text(sys)
                &&& ev.time_written == spec_time_created(sys)
                &&& spec_record_elem(sys) matches Some(rc) && spec_parse_u32(spec_text(rc.children))
                    == Some(ev.record_id)
            }
            &&& ev.keywords == spec_rendering_keywords(doc)
        },
        Err(EvtError::MalformedPayload) => match spec_system(doc) {
            Some(sys) => spec_record_elem(sys) is None,
            None => true,
        },
        Err(EvtError::InvalidRecordId) => {
            &&& spec_system(doc) matches Some(sys) && spec_record_elem(sys) matches Some(rc)
                && spec_parse_u32(spec_text(rc.children)) is None
        },
    }
}

/// The enriched message text: the formatted message where formatting
/// succeeded, else a diagnostic line naming the failure — one unformattable
/// message never aborts the batch.
pub fn message_or_diagnostic(formatted: Option<String>, detail: &str) -> (r: String)
    ensures
        match formatted {
            Some(m) => r@ == m@,
            None => r@ == "Failed to get event message: "@ + detail@,
        },
{
    match formatted {
        Some(m) => m,
        None => {
            let mut s = String::from_str("Failed to get event message: ");
            s.append(detail);
            s
        },
    }
}

impl EvtEvent {
    /// Reads a record's envelope out of its parsed payload.  The provider,
    /// channel and timestamp fall back to defaults when absent; the record
    /// id must be present and numeric.
    pub fn from_document(doc: &XmlElement, xml: String, message: String) -> (r: Result<
        EvtEvent,
        EvtError,
    >)
        ensures
            match r {
                Ok(ev) => spec_envelope_outcome(Ok(ev@), node_view(*doc)) && ev@.xml == xml@
                    && ev@.message == message@,
                Err(e) => spec_envelope_outcome(Err(e), node_view(*doc)),
            },
    {
        proof {
            crate::xml::lemma_node_view_children(*doc);
        }
        let sys = match doc.get_child("System") {
            Some(s) => s,
            None => {
                return Err(EvtError::MalformedPayload);
            },
        };
        proof {
            crate::xml::lemma_node_view_children(*sys);
        }
        let provider: String = match sys.get_child("Provider") {
            Some(p) => match p.get_attr("Name") {
                Some(v) => v.clone(),
                None => String::new(),
            },
            None => String::new(),
        };
        let channel: String = match sys.get_child("Channel") {
            Some(c) => {
                proof {
                    crate::xml::lemma_node_view_children(*c);
                }
                match c.get_text() {
                    Some(t) => t,
                    None => {
                        proof {
                            crate::xml::lemma_no_text_empty(contents_view(c.children@));
                        }
                        String::new()
                    },
                }
            },
            None => String::new(),
        };
        let time_written: String = match sys.get_child("TimeCreated") {
            Some(tc) => match tc.get_attr("SystemTime") {
                Some(v) => v.clone(),
                None => String::from_str("1970-01-01T00:00:00.0000000Z"),
            },
            None => String::from_str("1970-01-01T00:00:00.0000000Z"),
        };
        let rc = match sys.get_child("EventRecordID") {
            Some(rc) => rc,
            None => {
                return Err(EvtError::MalformedPayload);
            },
        };
        proof {
            crate::xml::lemma_node_view_children(*rc);
        }
        let rc_text: String = match rc.get_text() {
            Some(t) => t,
            None => {
                proof {
                    crate::xml::lemma_no_text_empty(contents_view(rc.children@));
                }
                String::new()
            },
        };
        let record_id = match parse_u32(rc_text.as_str()) {
            Some(v) => v,
            None => {
                return Err(EvtError::InvalidRecordId);
            },
        };
        let mut kws: Vec<String> = Vec::new();
        match doc.get_child("RenderingInfo") {
            Some(ri) => {
                proof {
                    crate::xml::lemma_node_view_children(*ri);
                }
                match ri.get_child("Keywords") {
                    Some(kw) => {
                        proof {
                            crate::xml::lemma_node_view_children(*kw);
                        }
                        let ghost cv = contents_view(kw.children@);
                        let n = kw.children.len();
                        let mut i: usize = 0;
                        proof {
                            assert(cv.skip(0) =~= cv);
                        }
                        while i < n
                            invariant
                                i <= n,
                                n == kw.children@.len(),
                                cv == contents_view(kw.children@),
                                spec_keyword_texts(cv) == kws@.map_values(|s: String| s@)
                                    + spec_keyword_texts(cv.skip(i as int)),
                            decreases n - i,
                        {
                            let ghost pre = kws@.map_values(|s: String| s@);
                            proof {
                                assert(cv.skip(i as int)[0] == cv[i as int]);
                                assert(cv[i as int] == crate::xml::content_view(
                                    kw.children@[i as int],
                                ));
                                assert(cv.skip(i as int).drop_first() =~= cv.skip(i + 1));
                            }
                            match &kw.children[i] {
                                XmlContent::Node(el) => {
                                    proof {
                                        crate::xml::lemma_node_view_children(*el);
                                    }
                                    match el.get_text() {
                                        Some(t) => {
                                            kws.push(t);
                                            proof {
                                                assert(kws@.map_values(|s: String| s@)
                                                    =~= pre.push(spec_text(node_view(*el).children)));
                                                assert(pre + (seq![
                                                    spec_text(node_view(*el).children),
                                                ] + spec_keyword_texts(cv.skip(i + 1))) =~= kws@
                                                    .map_values(|s: String| s@)
                                                    + spec_keyword_texts(cv.skip(i + 1)));
                                            }
                                        },
                                        None => {},
                                    }
                                },
                                XmlContent::Text(_) => {},
                            }
                            i = i + 1;
                        }
                        proof {
                            assert(cv.skip(n as int) =~= Seq::<XmlContentView>::empty());
                            assert(kws@.map_values(|s: String| s@) + Seq::<Seq<char>>::empty()
                                =~= kws@.map_values(|s: String| s@));
                        }
                    },
                    None => {
                        proof {
                            assert(kws@.map_values(|s: String| s@) =~= Seq::<Seq<char>>::empty());
                        }
                    },
                }
            },
            None => {
                proof {
                    assert(kws@.map_values(|s: String| s@) =~= Seq::<Seq<char>>::empty());
                }
            },
        }
        Ok(
            EvtEvent {
                channel,
                provider,
                xml,
                time_written,
                record_id,
                message,
                keywords: kws,
            },
        )
    }

    /// Takes in one record from its payload text and its rendered message.
    /// The parse outcome is the named one of the text, so the whole intake
    /// is pinned: a text that does not parse is `MalformedPayload`, and a
    /// parsed one yields exactly the envelope its tree holds.
    pub fn new(xml: &str, message: String) -> (r: Result<EvtEvent, EvtError>)
        ensures
            match r {
                Ok(ev) => {
                    &&& spec_parse_doc(xml@) matches Some(doc) && spec_envelope_outcome(
                        Ok(ev@),
                        doc,
                    )
                    &&& ev@.xml == xml@
                    &&& ev@.message == message@
                },
                Err(e) => match spec_parse_doc(xml@) {
                    Some(doc) => spec_envelope_outcome(Err(e), doc),
                    None => e == EvtError::MalformedPayload,
                },
            },
    {
        match parse_xml(xml) {
            Some(doc) => EvtEvent::from_document(&doc, String::from_str(xml), message),
            None => Err(EvtError::MalformedPayload),
        }
    }

    pub fn get_event_message(&self) -> (r: String)
        ensures
            r@ == self@.message,
    {
        self.message.clone()
    }

    pub fn get_timestamp(&self) -> (r: String)
        ensures
            r@ == self@.time_written,
    {
        self.time_written.clone()
    }

    pub fn get_xml(&self) -> (r: String)
        ensures
            r@ == self@.xml,
    {
        self.xml.clone()
    }

    pub fn get_record_id(&self) -> (r: u32)
        ensures
            r == self@.record_id,
    {
        self.record_id
    }

    pub fn get_channel(&self) -> (r: &str)
        ensures
            r@ == self@.channel,
    {
        self.channel.as_str()
    }

    pub fn get_provider(&self) -> (r: &str)
        ensures
            r@ == self@.provider,
    {
        self.provider.as_str()
    }

    pub fn get_keywords(&self) -> (r: &Vec<String>)
        ensures
            r@.map_values(|s: String| s@) == self@.keywords,
    {
        &self.keywords
    }
}

} // verus!
