//! Media objects. An object travels on a data stream of its own and has no
//! layout on the control stream, so this type carries no codec.

use vstd::prelude::*;
use crate::quic_varint::QUICVarint;

verus! {

/// One media object of a track: where it belongs and what it carries.
pub struct Object {
    pub track_id: QUICVarint,
    pub group_sequence: QUICVarint,
    pub object_sequence: QUICVarint,
    pub priority: QUICVarint,
    pub payload: Vec<u8>,
}

/// The mathematical content of an [`Object`].
pub struct ObjectView {
    pub track_id: u64,
    pub group_sequence: u64,
    pub object_sequence: u64,
    pub priority: u64,
    pub payload: Seq<u8>,
}

impl View for Object {
    type V = ObjectView;

    open spec fn view(&self) -> ObjectView {
        ObjectView {
            track_id: self.track_id@,
            group_sequence: self.group_sequence@,
            object_sequence: self.object_sequence@,
            priority: self.priority@,
            payload: self.payload@,
        }
    }
}

} // verus!
