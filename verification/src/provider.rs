//! Providers: the named components that declare a log vocabulary.  A
//! provider is built once, before collection starts, and read-only after
//! that.  Its identity is its name alone: equality ignores every other
//! field, which is what lets the task partition deduplicate providers.

use vstd::prelude::*;

use crate::event_meta::{EvtEventMetadata, EvtEventMetadataView};
use crate::strutil::push_char;
use crate::tables::{ChannelEntryView, ChannelTable, SymbolEntryView, SymbolTable, spec_get,
    unique_keys};

verus! {

/// The name a channel id resolves to in a channel reference table.
pub open spec fn spec_channel_name(channels: Seq<(u64, ChannelEntryView)>, id: u32) -> Option<
    Seq<char>,
> {
    match spec_get(channels, id as u64) {
        Some(e) => Some(e.name),
        None => None,
    }
}

/// One provider: its identity, where it was read, its five metadata tables
/// and its declared event templates.
#[derive(Debug, Clone)]
pub struct EvtProvider {
    name: String,
    hostname: String,
    channels: ChannelTable,
    levels: SymbolTable,
    tasks: SymbolTable,
    opcodes: SymbolTable,
    keywords: SymbolTable,
    events: Vec<EvtEventMetadata>,
}

/// The mathematical value of an `EvtProvider`.
pub struct EvtProviderView {
    pub name: Seq<char>,
    pub hostname: Seq<char>,
    pub channels: Seq<(u64, ChannelEntryView)>,
    pub levels: Seq<(u64, SymbolEntryView)>,
    pub tasks: Seq<(u64, SymbolEntryView)>,
    pub opcodes: Seq<(u64, SymbolEntryView)>,
    pub keywords: Seq<(u64, SymbolEntryView)>,
    pub events: Seq<EvtEventMetadataView>,
}

impl View for EvtProvider {
    type V = EvtProviderView;

    closed spec fn view(&self) -> EvtProviderView {
        EvtProviderView {
            name: self.name@,
            hostname: self.hostname@,
            channels: self.channels@,
            levels: self.levels@,
            tasks: self.tasks@,
            opcodes: self.opcodes@,
            keywords: self.keywords@,
            events: self.events@.map_values(|e: EvtEventMetadata| e@),
        }
    }
}

impl EvtProvider {
    /// Every table keeps unique numeric keys.
    pub open spec fn wf(self) -> bool {
        &&& unique_keys(self@.channels)
        &&& unique_keys(self@.levels)
        &&& unique_keys(self@.tasks)
        &&& unique_keys(self@.opcodes)
        &&& unique_keys(self@.keywords)
    }

    /// Assembles a provider from its name, the host it was read on, and the
    /// outcome of resolving each metadata table.  A table whose resolution
    /// failed (`None`) is substituted by an empty one: the provider stays
    /// usable, merely under-enriched.  Templates are attached afterwards,
    /// through `update_events`.
    pub fn new(
        name: String,
        hostname: String,
        channels: Option<ChannelTable>,
        levels: Option<SymbolTable>,
        tasks: Option<SymbolTable>,
        opcodes: Option<SymbolTable>,
        keywords: Option<SymbolTable>,
    ) -> (p: EvtProvider)
        requires
            channels matches Some(t) ==> unique_keys(t@),
            levels matches Some(t) ==> unique_keys(t@),
            tasks matches Some(t) ==> unique_keys(t@),
            opcodes matches Some(t) ==> unique_keys(t@),
            keywords matches Some(t) ==> unique_keys(t@),
        ensures
            p@.name == name@,
            p@.hostname == hostname@,
            p@.channels == (match channels {
                Some(t) => t@,
                None => Seq::<(u64, ChannelEntryView)>::empty(),
            }),
            p@.levels == (match levels {
                Some(t) => t@,
                None => Seq::<(u64, SymbolEntryView)>::empty(),
            }),
            p@.tasks == (match tasks {
                Some(t) => t@,
                None => Seq::<(u64, SymbolEntryView)>::empty(),
            }),
            p@.opcodes == (match opcodes {
                Some(t) => t@,
                None => Seq::<(u64, SymbolEntryView)>::empty(),
            }),
            p@.keywords == (match keywords {
                Some(t) => t@,
                None => Seq::<(u64, SymbolEntryView)>::empty(),
            }),
            p@.events == Seq::<EvtEventMetadataView>::empty(),
            p.wf(),
    {
        let p = EvtProvider {
            name,
            hostname,
            channels: match channels {
                Some(t) => t,
                None => ChannelTable::new(),
            },
            levels: match levels {
                Some(t) => t,
                None => SymbolTable::new(),
            },
            tasks: match tasks {
                Some(t) => t,
                None => SymbolTable::new(),
            },
            opcodes: match opcodes {
                Some(t) => t,
                None => SymbolTable::new(),
            },
            keywords: match keywords {
                Some(t) => t,
                None => SymbolTable::new(),
            },
            events: Vec::new(),
        };
        proof {
            assert(p@.events =~= Seq::<EvtEventMetadataView>::empty());
        }
        p
    }

    /// Replaces the provider's declared event templates.
    pub fn update_events(&mut self, new_events: Vec<EvtEventMetadata>)
        ensures
            final(self)@ == (EvtProviderView {
                events: new_events@.map_values(|e: EvtEventMetadata| e@),
                ..old(self)@
            }),
            old(self).wf() ==> final(self).wf(),
    {
        self.events = new_events;
    }

    pub fn get_name(&self) -> (r: &str)
        ensures
            r@ == self@.name,
    {
        self.name.as_str()
    }

    pub fn get_hostname(&self) -> (r: &str)
        ensures
            r@ == self@.hostname,
    {
        self.hostname.as_str()
    }

    pub fn get_channels(&self) -> (r: &ChannelTable)
        ensures
            r@ == self@.channels,
    {
        &self.channels
    }

    pub fn get_levels(&self) -> (r: &SymbolTable)
        ensures
            r@ == self@.levels,
    {
        &self.levels
    }

    pub fn get_tasks(&self) -> (r: &SymbolTable)
        ensures
            r@ == self@.tasks,
    {
        &self.tasks
    }

    pub fn get_opcodes(&self) -> (r: &SymbolTable)
        ensures
            r@ == self@.opcodes,
    {
        &self.opcodes
    }

    pub fn get_keywords(&self) -> (r: &SymbolTable)
        ensures
            r@ == self@.keywords,
    {
        &self.keywords
    }

    pub fn get_events(&self) -> (r: &Vec<EvtEventMetadata>)
        ensures
            r@.map_values(|e: EvtEventMetadata| e@) == self@.events,
    {
        &self.events
    }
}

impl PartialEq for EvtProvider {
    /// Identity is the name alone.
    fn eq(&self, other: &EvtProvider) -> (r: bool) {
        self.name == other.name
    }
}

impl vstd::std_specs::cmp::PartialEqSpecImpl for EvtProvider {
    open spec fn obeys_eq_spec() -> bool {
        true
    }

    open spec fn eq_spec(&self, other: &EvtProvider) -> bool {
        self@.name == other@.name
    }
}

impl core::hash::Hash for EvtProvider {
    /// Relies on String::hash: identity hashes through the name alone, in
    /// step with the name-only equality, so equal providers hash equally.
    #[verifier::external_body]
    fn hash<H: core::hash::Hasher>(&self, state: &mut H) {
        self.name.hash(state);
    }
}

/// Provider identity: two providers built from one name compare equal,
/// however much their tables or templates differ.
pub proof fn lemma_provider_identity(a: EvtProvider, b: EvtProvider)
    ensures
        vstd::std_specs::cmp::PartialEqSpec::eq_spec(&a, &b) <==> a@.name == b@.name,
{
}

/// A 128-bit GUID carried as one unsigned value, highest-order byte first in
/// its canonical text form.
#[derive(Debug, Clone, Copy, PartialEq, Eq, Structural)]
pub struct GuidWrapper(pub u128);

/// One lower-case hex digit.
pub open spec fn spec_hex_digit(d: u8) -> char
    recommends
        d < 16,
{
    if d < 10 {
        ((0x30 + d) as u8) as char
    } else {
        ((0x61 + (d - 10)) as u8) as char
    }
}

/// The canonical 8-4-4-4-12 text of a GUID: its 32 hex digits, most
/// significant first, with dashes after digits 8, 12, 16 and 20.
pub open spec fn spec_guid_chars(g: u128) -> Seq<char> {
    let digits = Seq::new(32, |i: int| spec_hex_digit(((g >> (((31 - i) * 4) as u128)) & 0xF) as u8));
    digits.subrange(0, 8) + seq!['-'] + digits.subrange(8, 12) + seq!['-'] + digits.subrange(
        12,
        16,
    ) + seq!['-'] + digits.subrange(16, 20) + seq!['-'] + digits.subrange(20, 32)
}

impl GuidWrapper {
    /// The canonical dashed-hex text of the GUID.
    pub fn to_guid_string(&self) -> (s: String)
        ensures
            s@ == spec_guid_chars(self.0),
    {
        let g = self.0;
        let ghost digits = Seq::new(32, |i: int| spec_hex_digit(((g >> (((31 - i) * 4) as u128))
            & 0xF) as u8));
        let mut s = String::new();
        let mut i: usize = 0;
        while i < 32
            invariant
                i <= 32,
                g == self.0,
                digits == Seq::new(32, |k: int| spec_hex_digit(((g >> (((31 - k) * 4) as u128))
                    & 0xF) as u8)),
                s@ == spec_guid_prefix(digits, i as int),
            decreases 32 - i,
        {
            if i == 8 || i == 12 || i == 16 || i == 20 {
                push_char(&mut s, '-');
            }
            let sh: u128 = ((31 - i as u32) * 4) as u128;
            proof {
                assert(((g >> sh) & 0xF) < 16) by (bit_vector);
            }
            let d: u8 = ((g >> sh) & 0xF) as u8;
            let c: char = if d < 10 {
                (0x30 + d) as char
            } else {
                (0x61 + (d - 10)) as char
            };
            push_char(&mut s, c);
            proof {
                assert(c == digits[i as int]);
                assert(s@ =~= spec_guid_prefix(digits, i + 1));
            }
            i = i + 1;
        }
        proof {
            assert(spec_guid_prefix(digits, 32) =~= spec_guid_chars(g));
        }
        s
    }
}

/// The first `n` digits of the dashed-hex text, dashes included.
pub open spec fn spec_guid_prefix(digits: Seq<char>, n: int) -> Seq<char>
    recommends
        0 <= n <= 32,
        digits.len() == 32,
{
    if n <= 8 {
        digits.subrange(0, n)
    } else if n <= 12 {
        digits.subrange(0, 8) + seq!['-'] + digits.subrange(8, n)
    } else if n <= 16 {
        digits.subrange(0, 8) + seq!['-'] + digits.subrange(8, 12) + seq!['-'] + digits.subrange(
            12,
            n,
        )
    } else if n <= 20 {
        digits.subrange(0, 8) + seq!['-'] + digits.subrange(8, 12) + seq!['-'] + digits.subrange(
            12,
            16,
        ) + seq!['-'] + digits.subrange(16, n)
    } else {
        digits.subrange(0, 8) + seq!['-'] + digits.subrange(8, 12) + seq!['-'] + digits.subrange(
            12,
            16,
        ) + seq!['-'] + digits.subrange(16, 20) + seq!['-'] + digits.subrange(20, n)
    }
}

} // verus!
