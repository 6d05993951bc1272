//! Assembly of the per-provider tables from decoded metadata rows.  For each
//! element of a metadata property array the caller fetches and decodes the
//! element's sub-properties (name, numeric value, message text, GUID) and
//! hands them over as one row; building the table from the rows is done — and
//! specified — here.  A row yields an entry exactly when its name and its
//! numeric value decoded to the expected shapes; any other sub-property is
//! optional.  Colliding numeric keys overwrite (last write wins).

use vstd::prelude::*;

use crate::tables::{ChannelEntry, ChannelEntryView, ChannelTable, SymbolEntry, SymbolEntryView,
    SymbolTable, spec_insert, unique_keys};
use crate::variant::{VariantBuffer, VariantValue};

verus! {

/// Which symbol table a metadata property array describes.
#[derive(Debug, Clone, Copy, PartialEq, Eq, Structural)]
pub enum TableKind {
    Levels,
    Tasks,
    Opcodes,
    Keywords,
}

/// The decoded sub-properties of one element of a level, task, opcode or
/// keyword array.  `message` carries the already-formatted message text,
/// absent when there was none or formatting failed.
#[derive(Debug)]
pub struct SymbolRow {
    pub name: Option<VariantBuffer>,
    pub message: Option<String>,
    pub value: Option<VariantBuffer>,
    pub guid: Option<VariantBuffer>,
}

/// The mathematical value of a `SymbolRow`.
pub struct SymbolRowView {
    pub name: Option<VariantValue>,
    pub message: Option<Seq<char>>,
    pub value: Option<VariantValue>,
    pub guid: Option<VariantValue>,
}

impl View for SymbolRow {
    type V = SymbolRowView;

    open spec fn view(&self) -> SymbolRowView {
        SymbolRowView {
            name: match self.name {
                Some(v) => Some(v@),
                None => None,
            },
            message: match self.message {
                Some(m) => Some(m@),
                None => None,
            },
            value: match self.value {
                Some(v) => Some(v@),
                None => None,
            },
            guid: match self.guid {
                Some(v) => Some(v@),
                None => None,
            },
        }
    }
}

/// The decoded sub-properties of one element of the channel reference array.
#[derive(Debug)]
pub struct ChannelRow {
    pub name: Option<VariantBuffer>,
    pub message: Option<String>,
    pub index: Option<VariantBuffer>,
    pub imported: Option<VariantBuffer>,
    pub id: Option<VariantBuffer>,
}

/// The mathematical value of a `ChannelRow`.
pub struct ChannelRowView {
    pub name: Option<VariantValue>,
    pub message: Option<Seq<char>>,
    pub index: Option<VariantValue>,
    pub imported: Option<VariantValue>,
    pub id: Option<VariantValue>,
}

impl View for ChannelRow {
    type V = ChannelRowView;

    open spec fn view(&self) -> ChannelRowView {
        ChannelRowView {
            name: match self.name {
                Some(v) => Some(v@),
                None => None,
            },
            message: match self.message {
                Some(m) => Some(m@),
                None => None,
            },
            index: match self.index {
                Some(v) => Some(v@),
                None => None,
            },
            imported: match self.imported {
                Some(v) => Some(v@),
                None => None,
            },
            id: match self.id {
                Some(v) => Some(v@),
                None => None,
            },
        }
    }
}

/// A row's display name: either string shape of the wire value is accepted.
pub open spec fn spec_row_name(v: Option<VariantValue>) -> Option<Seq<char>> {
    match v {
        Some(VariantValue::Utf16String(s)) => Some(s),
        Some(VariantValue::AnsiString(s)) => Some(s),
        _ => None,
    }
}

/// A row's numeric key.  Keyword keys travel as 64-bit flag masks, the other
/// kinds as 32-bit codes.
pub open spec fn spec_row_key(kind: TableKind, v: Option<VariantValue>) -> Option<u64> {
    if kind is Keywords {
        match v {
            Some(VariantValue::UInt64(x)) => Some(x),
            _ => None,
        }
    } else {
        match v {
            Some(VariantValue::UInt32(x)) => Some(x as u64),
            _ => None,
        }
    }
}

/// A task row's event GUID; the all-zero GUID means "none declared".
pub open spec fn spec_row_guid(kind: TableKind, v: Option<VariantValue>) -> Option<u128> {
    if kind is Tasks {
        match v {
            Some(VariantValue::Guid(g)) => if g != 0 {
                Some(g)
            } else {
                None
            },
            _ => None,
        }
    } else {
        None
    }
}

/// The table entry one symbol row yields, if its name and value are usable.
pub open spec fn spec_symbol_row_entry(kind: TableKind, r: SymbolRowView) -> Option<
    (u64, SymbolEntryView),
> {
    match (spec_row_key(kind, r.value), spec_row_name(r.name)) {
        (Some(k), Some(n)) => Some(
            (
                k,
                SymbolEntryView {
                    name: n,
                    message: r.message,
                    guid: spec_row_guid(kind, r.guid),
                },
            ),
        ),
        _ => None,
    }
}

/// The table entry one channel row yields, keyed by the channel id.
pub open spec fn spec_channel_row_entry(r: ChannelRowView) -> Option<(u64, ChannelEntryView)> {
    match (spec_row_key(TableKind::Levels, r.id), spec_row_name(r.name)) {
        (Some(k), Some(n)) => Some(
            (
                k,
                ChannelEntryView {
                    name: n,
                    message: r.message,
                    index: match r.index {
                        Some(VariantValue::UInt32(x)) => Some(x),
                        _ => None,
                    },
                    imported: match r.imported {
                        Some(VariantValue::UInt32(x)) => Some(x > 0),
                        _ => None,
                    },
                },
            ),
        ),
        _ => None,
    }
}

/// The table the rows build up, row by row, entries inserted last-write-wins.
pub open spec fn spec_build<R, V>(rows: Seq<R>, entry_of: spec_fn(R) -> Option<(u64, V)>) -> Seq<
    (u64, V),
>
    decreases rows.len(),
{
    if rows.len() == 0 {
        Seq::empty()
    } else {
        let prev = spec_build(rows.drop_last(), entry_of);
        match entry_of(rows.last()) {
            Some(p) => spec_insert(prev, p.0, p.1),
            None => prev,
        }
    }
}

fn clone_opt_string(m: &Option<String>) -> (r: Option<String>)
    ensures
        match (r, m) {
            (Some(a), Some(b)) => a@ == b@,
            (None, None) => true,
            _ => false,
        },
{
    match m {
        Some(s) => Some(s.clone()),
        None => None,
    }
}

/// The display name carried by a wire value, if it has a string shape.
fn take_row_name(v: &Option<VariantBuffer>) -> (r: Option<String>)
    ensures
        match (r, spec_row_name(match v {
            Some(x) => Some(x@),
            None => None,
        })) {
            (Some(a), Some(b)) => a@ == b,
            (None, None) => true,
            _ => false,
        },
{
    match v {
        Some(VariantBuffer::StringVal(s)) => Some(s.clone()),
        Some(VariantBuffer::AnsiStringVal(s)) => Some(s.clone()),
        _ => None,
    }
}

/// Builds one symbol table from its decoded rows.  A row whose name or
/// numeric value is missing or of the wrong shape contributes nothing (the
/// failure was fatal for that property alone, not for the table).
pub fn build_symbol_table(kind: TableKind, rows: &Vec<SymbolRow>) -> (t: SymbolTable)
    ensures
        t@ == spec_build(
            rows@.map_values(|r: SymbolRow| r@),
            |r: SymbolRowView| spec_symbol_row_entry(kind, r),
        ),
        unique_keys(t@),
{
    let ghost entry_of = |r: SymbolRowView| spec_symbol_row_entry(kind, r);
    let ghost rv = rows@.map_values(|r: SymbolRow| r@);
    let n = rows.len();
    let mut t = SymbolTable::new();
    let mut i: usize = 0;
    proof {
        assert(rv.take(0) =~= Seq::<SymbolRowView>::empty());
    }
    while i < n
        invariant
            i <= n,
            n == rows@.len(),
            rv == rows@.map_values(|r: SymbolRow| r@),
            entry_of == (|r: SymbolRowView| spec_symbol_row_entry(kind, r)),
            t@ == spec_build(rv.take(i as int), entry_of),
            unique_keys(t@),
        decreases n - i,
    {
        let row = &rows[i];
        proof {
            assert(rv[i as int] == row@);
            assert(rv.take(i + 1).drop_last() =~= rv.take(i as int));
            assert(rv.take(i + 1).last() == row@);
        }
        let name = take_row_name(&row.name);
        let key: Option<u64> = if matches!(kind, TableKind::Keywords) {
            match &row.value {
                Some(VariantBuffer::UInt64Val(x)) => Some(*x),
                _ => None,
            }
        } else {
            match &row.value {
                Some(VariantBuffer::UInt32Val(x)) => Some(*x as u64),
                _ => None,
            }
        };
        let guid: Option<u128> = if matches!(kind, TableKind::Tasks) {
            match &row.guid {
                Some(VariantBuffer::GuidVal(g)) => if *g != 0 {
                    Some(*g)
                } else {
                    None
                },
                _ => None,
            }
        } else {
            None
        };
        match (key, name) {
            (Some(k), Some(nm)) => {
                let e = SymbolEntry { name: nm, message: clone_opt_string(&row.message), guid };
                proof {
                    assert(spec_symbol_row_entry(kind, row@) matches Some(p) && p.0 == k && p.1
                        == e@);
                }
                t.insert(k, e);
            },
            _ => {
                proof {
                    assert(spec_symbol_row_entry(kind, row@) is None);
                }
            },
        }
        i = i + 1;
    }
    proof {
        assert(rv.take(n as int) =~= rv);
    }
    t
}

/// Builds the channel reference table from its decoded rows, keyed by the
/// channel id sub-property.
pub fn build_channel_table(rows: &Vec<ChannelRow>) -> (t: ChannelTable)
    ensures
        t@ == spec_build(
            rows@.map_values(|r: ChannelRow| r@),
            |r: ChannelRowView| spec_channel_row_entry(r),
        ),
        unique_keys(t@),
{
    let ghost entry_of = |r: ChannelRowView| spec_channel_row_entry(r);
    let ghost rv = rows@.map_values(|r: ChannelRow| r@);
    let n = rows.len();
    let mut t = ChannelTable::new();
    let mut i: usize = 0;
    proof {
        assert(rv.take(0) =~= Seq::<ChannelRowView>::empty());
    }
    while i < n
        invariant
            i <= n,
            n == rows@.len(),
            rv == rows@.map_values(|r: ChannelRow| r@),
            entry_of == (|r: ChannelRowView| spec_channel_row_entry(r)),
            t@ == spec_build(rv.take(i as int), entry_of),
            unique_keys(t@),
        decreases n - i,
    {
        let row = &rows[i];
        proof {
            assert(rv[i as int] == row@);
            assert(rv.take(i + 1).drop_last() =~= rv.take(i as int));
            assert(rv.take(i + 1).last() == row@);
        }
        let name = take_row_name(&row.name);
        let key: Option<u64> = match &row.id {
            Some(VariantBuffer::UInt32Val(x)) => Some(*x as u64),
            _ => None,
        };
        match (key, name) {
            (Some(k), Some(nm)) => {
                let index: Option<u32> = match &row.index {
                    Some(VariantBuffer::UInt32Val(x)) => Some(*x),
                    _ => None,
                };
                let imported: Option<bool> = match &row.imported {
                    Some(VariantBuffer::UInt32Val(x)) => Some(*x > 0),
                    _ => None,
                };
                let e = ChannelEntry {
                    name: nm,
                    message: clone_opt_string(&row.message),
                    index,
                    imported,
                };
                proof {
                    assert(spec_channel_row_entry(row@) matches Some(p) && p.0 == k && p.1 == e@);
                }
                t.insert(k, e);
            },
            _ => {
                proof {
                    assert(spec_channel_row_entry(row@) is None);
                }
            },
        }
        i = i + 1;
    }
    proof {
        assert(rv.take(n as int) =~= rv);
    }
    t
}

/// The sentinel meaning "no message declared" in message-id sub-properties.
pub const NO_MESSAGE_ID: u32 = 0xFFFF_FFFF;

/// Whether a decoded message-id sub-property calls for message formatting:
/// it must be a 32-bit value other than the "no message" sentinel.
pub fn message_id_wanted(v: &Option<VariantBuffer>) -> (r: Option<u32>)
    ensures
        r == (match (match v {
            Some(x) => Some(x@),
            None => None,
        }) {
            Some(VariantValue::UInt32(x)) => if x != NO_MESSAGE_ID {
                Some(x)
            } else {
                None
            },
            _ => None::<u32>,
        }),
{
    match v {
        Some(VariantBuffer::UInt32Val(x)) => if *x != NO_MESSAGE_ID {
            Some(*x)
        } else {
            None
        },
        _ => None,
    }
}

/// Outcome of the size-probing first call of the two-call buffer convention:
/// the probe may report success or "buffer too small", both expected; any
/// other failure breaks the protocol for that one property.
#[derive(Debug, Clone, Copy, PartialEq, Eq, Structural)]
pub enum ProbeOutcome {
    /// Make the second call with a buffer of exactly this many bytes.
    Proceed(u32),
    /// The probe failed some other way: fatal for this property alone.
    Violation,
}

/// Classifies the first call of the two-call convention from its success
/// flag, whether its failure was the expected "buffer too small" condition,
/// and the size it reported.
pub fn classify_probe(ok: bool, insufficient_buffer: bool, required: u32) -> (r: ProbeOutcome)
    ensures
        r == (if ok || insufficient_buffer {
            ProbeOutcome::Proceed(required)
        } else {
            ProbeOutcome::Violation
        }),
{
    if ok || insufficient_buffer {
        ProbeOutcome::Proceed(required)
    } else {
        ProbeOutcome::Violation
    }
}

} // verus!
