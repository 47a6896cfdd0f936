//! The action menu and the server picker shown over the image table.
use vstd::prelude::*;

use crate::models::{BuildStateV, ManagedImage, ManagedImageV};
use crate::names::view_names;

verus! {

/// What can be done to a row.
#[derive(Debug, PartialEq, Eq, Structural, Clone, Copy)]
pub enum Action {
    Build,
    Deploy,
    Remove,
    ViewLogs,
    DumpLogs,
    Cancel,
}

/// One line of the action menu; a dimmed entry cannot be chosen.
pub struct PopupEntry {
    pub action: Action,
    pub dimmed: bool,
    pub label: String,
}

impl Clone for PopupEntry {
    fn clone(&self) -> (r: Self)
        ensures
            r.action == self.action,
            r.dimmed == self.dimmed,
            r.label@ == self.label@,
    {
        PopupEntry { action: self.action, dimmed: self.dimmed, label: self.label.clone() }
    }
}

/// The overlay shown above the table, if any.
pub enum Popup {
    Hidden,
    Actions { entries: Vec<PopupEntry>, title: String },
    ServerPicker {
        selected: Vec<bool>,
        for_action: Action,
        row_index: usize,
        title: String,
        server_names: Vec<String>,
    },
}

pub enum PopupV {
    Hidden,
    Actions { entries: Seq<(Action, bool, Seq<char>)>, title: Seq<char> },
    ServerPicker {
        selected: Seq<bool>,
        for_action: Action,
        row_index: usize,
        title: Seq<char>,
        server_names: Seq<Seq<char>>,
    },
}

impl View for Popup {
    type V = PopupV;

    open spec fn view(&self) -> PopupV {
        match self {
            Popup::Hidden => PopupV::Hidden,
            Popup::Actions { entries, title } => PopupV::Actions {
                entries: entries_view(entries@),
                title: title@,
            },
            Popup::ServerPicker { selected, for_action, row_index, title, server_names } => PopupV::ServerPicker {
                selected: selected@,
                for_action: *for_action,
                row_index: *row_index,
                title: title@,
                server_names: view_names(server_names@),
            },
        }
    }
}

impl Popup {
    /// Anything is shown.
    pub fn is_visible(&self) -> (r: bool)
        ensures
            r == !(self is Hidden),
    {
        match self {
            Popup::Hidden => false,
            _ => true,
        }
    }
}

/// An entry as (action, dimmed, label).
pub open spec fn entry_view(e: PopupEntry) -> (Action, bool, Seq<char>) {
    (e.action, e.dimmed, e.label@)
}

pub open spec fn entries_view(es: Seq<PopupEntry>) -> Seq<(Action, bool, Seq<char>)> {
    es.map_values(|e: PopupEntry| entry_view(e))
}

/// The menu for a current image: build (dimmed while it builds), deploy
/// (dimmed without a staging tarball), remove (dimmed when no server has
/// it), view and dump logs (dimmed without a log), cancel.
pub open spec fn current_menu(img: ManagedImageV, on_some_server: bool) -> Seq<(Action, bool, Seq<char>)> {
    let building = img.build_state is Building;
    seq![
        (Action::Build, building, if building {
            "  [Building...]"@
        } else {
            "  Build"@
        }),
        (Action::Deploy, !img.local_tarball, "  Deploy to servers..."@),
        (Action::Remove, !on_some_server, "  Remove from servers..."@),
        (Action::ViewLogs, img.build_log.len() == 0, "  View build logs"@),
        (Action::DumpLogs, img.build_log.len() == 0, "  Dump logs to file"@),
        (Action::Cancel, false, "  Cancel"@),
    ]
}

/// Some server reports the image's tarball.
pub open spec fn on_any_server(img: ManagedImageV) -> bool {
    exists|k: Seq<char>| #[trigger] img.server_presence.contains_key(k) && img.server_presence[k]
}

fn entry(action: Action, dimmed: bool, label: &str) -> (r: PopupEntry)
    ensures
        entry_view(r) == (action, dimmed, label@),
{
    PopupEntry { action, dimmed, label: label.to_owned() }
}

/// The action menu for a current image (see `current_menu`).
pub fn build_current_actions(image: &ManagedImage) -> (r: Vec<PopupEntry>)
    requires
        image.wf(),
    ensures
        entries_view(r@) == current_menu(image@, on_any_server(image@)),
{
    let building = match image.build_state {
        crate::models::BuildState::Building => true,
        _ => false,
    };
    let mut v: Vec<PopupEntry> = Vec::new();
    v.push(entry(Action::Build, building, if building {
        "  [Building...]"
    } else {
        "  Build"
    }));
    v.push(entry(Action::Deploy, !image.local_tarball, "  Deploy to servers..."));
    let present = image.present_on_any_server();
    proof {
        if present {
            let k = choose|k: Seq<char>| #[trigger] image.server_presence@.contains_key(k) && image.server_presence@[k];
            assert(image@.server_presence.contains_key(k) && image@.server_presence[k]);
        } else {
            assert forall|k: Seq<char>| #[trigger] image@.server_presence.contains_key(k) implies !image@.server_presence[k] by {
                assert(image.server_presence@.contains_key(k));
            }
        }
    }
    v.push(entry(Action::Remove, !present, "  Remove from servers..."));
    let no_log = image.build_log.len() == 0;
    v.push(entry(Action::ViewLogs, no_log, "  View build logs"));
    v.push(entry(Action::DumpLogs, no_log, "  Dump logs to file"));
    v.push(entry(Action::Cancel, false, "  Cancel"));
    assert(entries_view(v@) =~= current_menu(image@, on_any_server(image@)));
    v
}

/// The menu for a stale version or an unknown tarball: remove, cancel.
pub open spec fn cleanup_menu() -> Seq<(Action, bool, Seq<char>)> {
    seq![(Action::Remove, false, "  Remove from servers..."@), (Action::Cancel, false, "  Cancel"@)]
}

/// The action menu for a stale version or an unknown tarball.
pub fn build_cleanup_actions() -> (r: Vec<PopupEntry>)
    ensures
        entries_view(r@) == cleanup_menu(),
{
    let mut v: Vec<PopupEntry> = Vec::new();
    v.push(entry(Action::Remove, false, "  Remove from servers..."));
    v.push(entry(Action::Cancel, false, "  Cancel"));
    assert(entries_view(v@) =~= cleanup_menu());
    v
}

} // verus!
