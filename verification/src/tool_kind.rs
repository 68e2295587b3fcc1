//! The fixed order in which tool kinds are listed, and the icon of each kind.

use vstd::prelude::*;

use crate::thread::ToolKind;

verus! {

/// How many tool kinds there are.
pub const TOOL_KIND_COUNT: usize = 10;

/// Icons that stand for tool kinds.
#[derive(Clone, Copy, Debug, PartialEq, Eq, Structural)]
pub enum IconName {
    ToolSearch,
    ToolPencil,
    ToolDeleteFile,
    ArrowRightLeft,
    ToolTerminal,
    ToolThink,
    ToolWeb,
    ToolHammer,
}

/// The tool kinds, in the order in which they are listed.
pub open spec fn kinds_in_order() -> Seq<ToolKind> {
    seq![
        ToolKind::Read,
        ToolKind::Edit,
        ToolKind::Delete,
        ToolKind::Move,
        ToolKind::Search,
        ToolKind::Execute,
        ToolKind::Think,
        ToolKind::Fetch,
        ToolKind::SwitchMode,
        ToolKind::Other,
    ]
}

/// The icon of a tool kind.
pub open spec fn kind_icon(kind: ToolKind) -> IconName {
    match kind {
        ToolKind::Read | ToolKind::Search => IconName::ToolSearch,
        ToolKind::Edit => IconName::ToolPencil,
        ToolKind::Delete => IconName::ToolDeleteFile,
        ToolKind::Move | ToolKind::SwitchMode => IconName::ArrowRightLeft,
        ToolKind::Execute => IconName::ToolTerminal,
        ToolKind::Think => IconName::ToolThink,
        ToolKind::Fetch => IconName::ToolWeb,
        ToolKind::Other => IconName::ToolHammer,
    }
}

/// The place of a kind in the order of kinds, and its icon.
pub fn tool_kind_info(kind: &ToolKind) -> (info: (u8, IconName))
    ensures
        info.0 < TOOL_KIND_COUNT,
        kinds_in_order()[info.0 as int] == *kind,
        info.1 == kind_icon(*kind),
{
    match kind {
        ToolKind::Read => (0, IconName::ToolSearch),
        ToolKind::Edit => (1, IconName::ToolPencil),
        ToolKind::Delete => (2, IconName::ToolDeleteFile),
        ToolKind::Move => (3, IconName::ArrowRightLeft),
        ToolKind::Search => (4, IconName::ToolSearch),
        ToolKind::Execute => (5, IconName::ToolTerminal),
        ToolKind::Think => (6, IconName::ToolThink),
        ToolKind::Fetch => (7, IconName::ToolWeb),
        ToolKind::SwitchMode => (8, IconName::ArrowRightLeft),
        ToolKind::Other => (9, IconName::ToolHammer),
    }
}

/// The place of a kind in the order of kinds.
pub fn tool_kind_sort_key(kind: &ToolKind) -> (key: u8)
    ensures
        key < TOOL_KIND_COUNT,
        kinds_in_order()[key as int] == *kind,
{
    tool_kind_info(kind).0
}

/// The kind at a place in the order of kinds; places beyond the last one stand for `Other`.
pub fn tool_kind_from_sort_key(key: usize) -> (kind: ToolKind)
    ensures
        kind == (if key < TOOL_KIND_COUNT { kinds_in_order()[key as int] } else { ToolKind::Other }),
{
    match key {
        0 => ToolKind::Read,
        1 => ToolKind::Edit,
        2 => ToolKind::Delete,
        3 => ToolKind::Move,
        4 => ToolKind::Search,
        5 => ToolKind::Execute,
        6 => ToolKind::Think,
        7 => ToolKind::Fetch,
        8 => ToolKind::SwitchMode,
        _ => ToolKind::Other,
    }
}

/// Every kind stands at exactly one place in the order of kinds, so a kind and its sort key
/// determine each other.
pub proof fn kinds_and_sort_keys_correspond(kind: ToolKind)
    ensures
        kinds_in_order().len() == TOOL_KIND_COUNT,
        exists|key: int| 0 <= key < TOOL_KIND_COUNT && kinds_in_order()[key] == kind,
        forall|a: int, b: int|
            0 <= a < TOOL_KIND_COUNT && 0 <= b < TOOL_KIND_COUNT && kinds_in_order()[a]
                == kinds_in_order()[b] ==> a == b,
{
    let kinds = kinds_in_order();
    assert(kinds[0] == ToolKind::Read);
    assert(kinds[1] == ToolKind::Edit);
    assert(kinds[2] == ToolKind::Delete);
    assert(kinds[3] == ToolKind::Move);
    assert(kinds[4] == ToolKind::Search);
    assert(kinds[5] == ToolKind::Execute);
    assert(kinds[6] == ToolKind::Think);
    assert(kinds[7] == ToolKind::Fetch);
    assert(kinds[8] == ToolKind::SwitchMode);
    assert(kinds[9] == ToolKind::Other);
}

/// Kinds are listed in a fixed order, and each has its icon.
pub proof fn kinds_have_their_places_and_icons(kind: ToolKind, info: (u8, IconName), key: u8)
    requires
        call_ensures(tool_kind_info, (&kind,), info),
        call_ensures(tool_kind_sort_key, (&kind,), key),
    ensures
        key == info.0,
        info == match kind {
            ToolKind::Read => (0u8, IconName::ToolSearch),
            ToolKind::Edit => (1u8, IconName::ToolPencil),
            ToolKind::Delete => (2u8, IconName::ToolDeleteFile),
            ToolKind::Move => (3u8, IconName::ArrowRightLeft),
            ToolKind::Search => (4u8, IconName::ToolSearch),
            ToolKind::Execute => (5u8, IconName::ToolTerminal),
            ToolKind::Think => (6u8, IconName::ToolThink),
            ToolKind::Fetch => (7u8, IconName::ToolWeb),
            ToolKind::SwitchMode => (8u8, IconName::ArrowRightLeft),
            ToolKind::Other => (9u8, IconName::ToolHammer),
        },
{
    kinds_and_sort_keys_correspond(kind);
    let kinds = kinds_in_order();
    assert(kinds[0] == ToolKind::Read);
    assert(kinds[1] == ToolKind::Edit);
    assert(kinds[2] == ToolKind::Delete);
    assert(kinds[3] == ToolKind::Move);
    assert(kinds[4] == ToolKind::Search);
    assert(kinds[5] == ToolKind::Execute);
    assert(kinds[6] == ToolKind::Think);
    assert(kinds[7] == ToolKind::Fetch);
    assert(kinds[8] == ToolKind::SwitchMode);
    assert(kinds[9] == ToolKind::Other);
}

/// The sort key of a kind leads back to it, and a key beyond the last one to `Other`.
pub proof fn sort_keys_lead_back(kind: ToolKind, key: u8, place: usize, found: ToolKind)
    requires
        call_ensures(tool_kind_sort_key, (&kind,), key),
        call_ensures(tool_kind_from_sort_key, (place,), found),
    ensures
        place == key ==> found == kind,
        place >= 10 ==> found == ToolKind::Other,
{
}

} // verus!
