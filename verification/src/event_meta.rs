//! A provider's declared event templates.  Each template's numeric fields
//! are resolved against the provider's own symbol tables; an undefined code
//! is a hard error for the whole provider, except the two built-in defaults
//! (operation code 0 and task 0).

use vstd::prelude::*;

use crate::provider::EvtProvider;
use crate::tables::{SymbolEntryView, spec_get};
use crate::tables::resolve_keywords;
use crate::tables::spec_resolve_keywords;

verus! {

/// One declared event of a provider, with every numeric field resolved to
/// its display name.
#[derive(Debug, Clone, PartialEq)]
pub struct EvtEventMetadata {
    pub id: u32,
    pub version: u32,
    pub channel: String,
    pub level: String,
    pub opcode: String,
    pub task: String,
    pub keywords: Vec<String>,
    pub message: String,
    pub template: String,
}

/// The mathematical value of an `EvtEventMetadata`.
pub struct EvtEventMetadataView {
    pub id: u32,
    pub version: u32,
    pub channel: Seq<char>,
    pub level: Seq<char>,
    pub opcode: Seq<char>,
    pub task: Seq<char>,
    pub keywords: Seq<Seq<char>>,
    pub message: Seq<char>,
    pub template: Seq<char>,
}

impl View for EvtEventMetadata {
    type V = EvtEventMetadataView;

    open spec fn view(&self) -> EvtEventMetadataView {
        EvtEventMetadataView {
            id: self.id,
            version: self.version,
            channel: self.channel@,
            level: self.level@,
            opcode: self.opcode@,
            task: self.task@,
            keywords: self.keywords@.map_values(|s: String| s@),
            message: self.message@,
            template: self.template@,
        }
    }
}

/// The raw fields of one declared event, as fetched and decoded from the
/// metadata interface.  `message` carries the already-formatted message
/// text: empty where the event declares none, a diagnostic line where
/// formatting failed — a message problem is never fatal.
#[derive(Debug)]
pub struct EventFields {
    pub id: u32,
    pub version: u32,
    pub channel_id: u32,
    pub level: u32,
    pub opcode: u32,
    pub task: u32,
    pub keyword_mask: u64,
    pub message: String,
    pub template: String,
}

/// Why one declared event could not be resolved: a numeric code without a
/// definition.  Any of these aborts metadata construction for the whole
/// provider.
#[derive(Debug, Clone, Copy, PartialEq, Eq, Structural)]
pub enum EventResolveError {
    /// The event's channel id has no entry in the channel table.
    UnresolvedChannel(u32),
    /// The event's level code has no entry in the level table.
    UnresolvedLevel(u32),
    /// The event's operation code is neither defined nor the default 0.
    UnresolvedOpcode(u32),
    /// The event's task code is neither defined nor the default 0.
    UnresolvedTask(u32),
}

/// The level name a code resolves to: the table entry's name, with no
/// default for undefined codes.
pub open spec fn spec_level_name(levels: Seq<(u64, SymbolEntryView)>, code: u32) -> Option<
    Seq<char>,
> {
    match spec_get(levels, code as u64) {
        Some(e) => Some(e.name),
        None => None,
    }
}

/// The operation code name a code resolves to; the undefined code 0 falls
/// back to the built-in name.
pub open spec fn spec_opcode_name(opcodes: Seq<(u64, SymbolEntryView)>, code: u32) -> Option<
    Seq<char>,
> {
    match spec_get(opcodes, code as u64) {
        Some(e) => Some(e.name),
        None => if code == 0 {
            Some("Info"@)
        } else {
            None
        },
    }
}

/// The task name a code resolves to; the undefined code 0 falls back to the
/// built-in name.
pub open spec fn spec_task_name(tasks: Seq<(u64, SymbolEntryView)>, code: u32) -> Option<
    Seq<char>,
> {
    match spec_get(tasks, code as u64) {
        Some(e) => Some(e.name),
        None => if code == 0 {
            Some("None"@)
        } else {
            None
        },
    }
}

impl EvtEventMetadata {
    /// Resolves one declared event's raw fields against its provider's
    /// tables.  Success requires the channel id and level code to be
    /// defined, and the operation and task codes to be defined or 0; the
    /// first failure, in that order, is returned.  The message text is
    /// carried through as given, whatever it holds.
    pub fn from_event(fields: EventFields, provider: &EvtProvider) -> (r: Result<
        EvtEventMetadata,
        EventResolveError,
    >)
        ensures
            match r {
                Ok(m) => {
                    &&& m@.id == fields.id
                    &&& m@.version == fields.version
                    &&& Some(m@.channel) == crate::provider::spec_channel_name(
                        provider@.channels,
                        fields.channel_id,
                    )
                    &&& Some(m@.level) == spec_level_name(provider@.levels, fields.level)
                    &&& Some(m@.opcode) == spec_opcode_name(provider@.opcodes, fields.opcode)
                    &&& Some(m@.task) == spec_task_name(provider@.tasks, fields.task)
                    &&& m@.keywords == spec_resolve_keywords(
                        fields.keyword_mask,
                        provider@.keywords,
                    )
                    &&& m@.message == fields.message@
                    &&& m@.template == fields.template@
                },
                Err(e) => match e {
                    EventResolveError::UnresolvedChannel(c) => {
                        &&& c == fields.channel_id
                        &&& crate::provider::spec_channel_name(provider@.channels, c) is None
                    },
                    EventResolveError::UnresolvedLevel(c) => {
                        &&& c == fields.level
                        &&& crate::provider::spec_channel_name(
                            provider@.channels,
                            fields.channel_id,
                        ) is Some
                        &&& spec_level_name(provider@.levels, c) is None
                    },
                    EventResolveError::UnresolvedOpcode(c) => {
                        &&& c == fields.opcode
                        &&& crate::provider::spec_channel_name(
                            provider@.channels,
                            fields.channel_id,
                        ) is Some
                        &&& spec_level_name(provider@.levels, fields.level) is Some
                        &&& spec_opcode_name(provider@.opcodes, c) is None
                    },
                    EventResolveError::UnresolvedTask(c) => {
                        &&& c == fields.task
                        &&& crate::provider::spec_channel_name(
                            provider@.channels,
                            fields.channel_id,
                        ) is Some
                        &&& spec_level_name(provider@.levels, fields.level) is Some
                        &&& spec_opcode_name(provider@.opcodes, fields.opcode) is Some
                        &&& spec_task_name(provider@.tasks, c) is None
                    },
                },
            },
    {
        let channel: String = match provider.get_channels().get(fields.channel_id as u64) {
            Some(e) => e.name.clone(),
            None => {
                return Err(EventResolveError::UnresolvedChannel(fields.channel_id));
            },
        };
        let level: String = match provider.get_levels().get(fields.level as u64) {
            Some(e) => e.name.clone(),
            None => {
                return Err(EventResolveError::UnresolvedLevel(fields.level));
            },
        };
        let opcode: String = match provider.get_opcodes().get(fields.opcode as u64) {
            Some(e) => e.name.clone(),
            None => if fields.opcode == 0 {
                String::from_str("Info")
            } else {
                return Err(EventResolveError::UnresolvedOpcode(fields.opcode));
            },
        };
        let task: String = match provider.get_tasks().get(fields.task as u64) {
            Some(e) => e.name.clone(),
            None => if fields.task == 0 {
                String::from_str("None")
            } else {
                return Err(EventResolveError::UnresolvedTask(fields.task));
            },
        };
        let keywords = resolve_keywords(fields.keyword_mask, provider.get_keywords());
        Ok(
            EvtEventMetadata {
                id: fields.id,
                version: fields.version,
                channel,
                level,
                opcode,
                task,
                keywords,
                message: fields.message,
                template: fields.template,
            },
        )
    }
}

} // verus!
