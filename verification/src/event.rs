//! What is reported to the application about the files it watches.

use vstd::prelude::*;
use crate::rootfs::{RootfsInfo, RootfsInfoView};

verus! {

/// A change to a watched file or to a root filesystem.
#[derive(Debug)]
pub enum FileSystemChangeKind {
    /// A watched file was written: its path and its content.
    Update(String, String),
    /// A watched file is gone or has another name: its path.
    Remove(String),
    /// The owner of a root filesystem was looked up or has changed: the
    /// descriptor and what is known now.
    UpdateDir(String, RootfsInfo),
}

/// What a `FileSystemChangeKind` holds, as plain values.
pub enum ChangeView {
    Update(Seq<char>, Seq<char>),
    Remove(Seq<char>),
    UpdateDir(Seq<char>, RootfsInfoView),
}

impl View for FileSystemChangeKind {
    type V = ChangeView;

    open spec fn view(&self) -> ChangeView {
        match *self {
            FileSystemChangeKind::Update(path, content) => ChangeView::Update(path@, content@),
            FileSystemChangeKind::Remove(path) => ChangeView::Remove(path@),
            FileSystemChangeKind::UpdateDir(descriptor, info) => ChangeView::UpdateDir(
                descriptor@,
                info@,
            ),
        }
    }
}

/// What the application is told.
#[derive(Debug)]
pub enum AppEvent {
    FileSystemChanged(FileSystemChangeKind),
    Quit,
}

/// What an `AppEvent` holds, as plain values.
pub enum AppEventView {
    FileSystemChanged(ChangeView),
    Quit,
}

impl View for AppEvent {
    type V = AppEventView;

    open spec fn view(&self) -> AppEventView {
        match *self {
            AppEvent::FileSystemChanged(change) => AppEventView::FileSystemChanged(change@),
            AppEvent::Quit => AppEventView::Quit,
        }
    }
}

/// The views of a sequence of events.
pub open spec fn event_views(events: Seq<AppEvent>) -> Seq<AppEventView> {
    events.map_values(|event: AppEvent| event@)
}

} // verus!
