//! The whole fleet: a mode, the nodes in order, and descriptive metadata that
//! travels with them untouched.

use crate::error::{Error, ErrorKind, ErrorView};
use crate::model::rtu::{RtuView, RTU};
use crate::model::Mode;
use vstd::prelude::*;

verus! {

/// Descriptive fields that the engines never read and always hand on as they
/// found them.
#[derive(Debug, PartialEq, Eq)]
pub struct Metadata {
    pub name: Option<String>,
    pub description: Option<String>,
    pub slack_channel: Option<String>,
    pub slack_webhook: Option<String>,
    pub master_addr: Option<String>,
    pub date: Option<String>,
}

/// The mathematical content of a [`Metadata`].
pub struct MetadataView {
    pub name: Option<Seq<char>>,
    pub description: Option<Seq<char>>,
    pub slack_channel: Option<Seq<char>>,
    pub slack_webhook: Option<Seq<char>>,
    pub master_addr: Option<Seq<char>>,
    pub date: Option<Seq<char>>,
}

/// The contents of an optional text.
pub open spec fn text_view(text: Option<String>) -> Option<Seq<char>> {
    match text {
        Some(text) => Some(text@),
        None => None,
    }
}

impl View for Metadata {
    type V = MetadataView;

    open spec fn view(&self) -> MetadataView {
        MetadataView {
            name: text_view(self.name),
            description: text_view(self.description),
            slack_channel: text_view(self.slack_channel),
            slack_webhook: text_view(self.slack_webhook),
            master_addr: text_view(self.master_addr),
            date: text_view(self.date),
        }
    }
}

fn clone_text(text: &Option<String>) -> (copy: Option<String>)
    ensures
        text_view(copy) == text_view(*text),
{
    match text {
        Some(text) => Some(text.clone()),
        None => None,
    }
}

impl Clone for Metadata {
    fn clone(&self) -> (copy: Self)
        ensures
            copy@ == self@,
    {
        Metadata {
            name: clone_text(&self.name),
            description: clone_text(&self.description),
            slack_channel: clone_text(&self.slack_channel),
            slack_webhook: clone_text(&self.slack_webhook),
            master_addr: clone_text(&self.master_addr),
            date: clone_text(&self.date),
        }
    }
}

impl Default for Metadata {
    /// No metadata at all.
    fn default() -> (metadata: Self)
        ensures
            metadata@ == (MetadataView {
                name: None,
                description: None,
                slack_channel: None,
                slack_webhook: None,
                master_addr: None,
                date: None,
            }),
    {
        Metadata {
            name: None,
            description: None,
            slack_channel: None,
            slack_webhook: None,
            master_addr: None,
            date: None,
        }
    }
}

/// The fleet model: the one document that describes every node, its devices
/// and the mode under which the nodes are to act.
#[derive(Debug, PartialEq, Eq)]
pub struct Model {
    pub mode: Mode,
    pub id: u32,
    pub rtus: Vec<RTU>,
    pub metadata: Metadata,
}

/// The mathematical content of a [`Model`].
pub struct ModelView {
    pub mode: Mode,
    pub id: u32,
    pub rtus: Seq<RtuView>,
    pub metadata: MetadataView,
}

/// The contents of a list of nodes.
pub open spec fn rtu_views(rtus: Seq<RTU>) -> Seq<RtuView> {
    rtus.map_values(|rtu: RTU| rtu@)
}

impl View for Model {
    type V = ModelView;

    open spec fn view(&self) -> ModelView {
        ModelView {
            mode: self.mode,
            id: self.id,
            rtus: rtu_views(self.rtus@),
            metadata: self.metadata@,
        }
    }
}

impl Clone for Model {
    fn clone(&self) -> (copy: Self)
        ensures
            copy@ == self@,
    {
        let copy = Model {
            mode: self.mode,
            id: self.id,
            rtus: self.rtus.clone(),
            metadata: self.metadata.clone(),
        };
        assert(rtu_views(copy.rtus@) =~= rtu_views(self.rtus@));
        copy
    }
}

impl ModelView {
    /// No two nodes of the model share an id, and no two devices of one node
    /// do.
    pub open spec fn well_formed(self) -> bool {
        &&& forall|i: int, j: int|
            0 <= i < j < self.rtus.len() ==> (#[trigger] self.rtus[i]).id != (
            #[trigger] self.rtus[j]).id
        &&& forall|r: int| 0 <= r < self.rtus.len() ==> (#[trigger] self.rtus[r]).well_formed()
    }
}

/// What is reported for a model in which an id is shared.
pub open spec fn shared_id() -> Seq<char> {
    "two nodes, or two devices of one node, share an id"@
}

impl Model {
    /// Admits a model that came from outside. A well-formed model is handed
    /// back as it is. One in which an id is shared does not follow the
    /// schema and is refused with a serialization error, which names no node
    /// since the fault lies with the document.
    pub fn validated(self) -> (result: Result<Model, Error>)
        ensures
            self@.well_formed() ==> result == Ok::<Model, Error>(self),
            !self@.well_formed() ==> (result matches Err(error) && error@ == (ErrorView {
                kind: ErrorKind::Serialization,
                node: Seq::empty(),
                device: None,
                detail: shared_id(),
            })),
    {
        if self.is_well_formed() {
            Ok(self)
        } else {
            Err(
                Error {
                    kind: ErrorKind::Serialization,
                    node: String::new(),
                    device: None,
                    detail: "two nodes, or two devices of one node, share an id".to_owned(),
                },
            )
        }
    }

    /// Whether no two nodes of the model share an id and no two devices of
    /// one node do.
    pub fn is_well_formed(&self) -> (well_formed: bool)
        ensures
            well_formed == self@.well_formed(),
    {
        let count = self.rtus.len();
        let mut j: usize = 0;
        while j < count
            invariant
                j <= count,
                count == self.rtus.len(),
                forall|a: int, b: int|
                    0 <= a < b < j ==> (#[trigger] self@.rtus[a]).id != (#[trigger] self@.rtus[b]).id,
                forall|r: int| 0 <= r < j ==> (#[trigger] self@.rtus[r]).well_formed(),
            decreases count - j,
        {
            if !self.rtus[j].is_well_formed() {
                assert(!self@.rtus[j as int].well_formed());
                return false;
            }
            let mut i: usize = 0;
            while i < j
                invariant
                    i <= j < count,
                    count == self.rtus.len(),
                    forall|a: int|
                        0 <= a < i ==> (#[trigger] self@.rtus[a]).id != self@.rtus[j as int].id,
                decreases j - i,
            {
                if self.rtus[i].id == self.rtus[j].id {
                    assert(self@.rtus[i as int].id == self@.rtus[j as int].id);
                    return false;
                }
                i = i + 1;
            }
            j = j + 1;
        }
        true
    }
}

} // verus!
