//! Objects that the database stores: blobs and sprint and task metadata.
use vstd::prelude::*;
use vstd::utf8::encode_utf8;
use crate::metadata::branch::{SprintMetadata, sprint_encoding};
use crate::metadata::commit::{TaskMetadata, TaskStatus, task_encoding};
use crate::text::{clone_string, str_bytes};

verus! {

/// An object that the database can store: its type name and its content
/// bytes, and the id it was stored under once it is known.
pub trait GitObject {
    /// The type name written in the object's header.
    spec fn kind_view(&self) -> Seq<char>;

    /// The content bytes.
    spec fn bytes_view(&self) -> Seq<u8>;

    /// The id the object was stored under, if known.
    spec fn oid_view(&self) -> Option<Seq<char>>;

    /// The type name.
    fn get_type(&self) -> (r: &str)
        ensures
            r@ == self.kind_view(),
    ;

    /// The content bytes.
    fn to_bytes(&self) -> (r: Vec<u8>)
        ensures
            r@ == self.bytes_view(),
    ;

    /// Records the id the object was stored under.
    fn set_oid(&mut self, oid: String)
        ensures
            final(self).oid_view() == Some(oid@),
            final(self).kind_view() == old(self).kind_view(),
            final(self).bytes_view() == old(self).bytes_view(),
    ;
}

/// An optional string as an optional character sequence.
pub open spec fn oid_opt(o: Option<String>) -> Option<Seq<char>> {
    match o {
        Some(s) => Some(s@),
        None => None,
    }
}

/// File content.
#[derive(Debug, Clone)]
pub struct Blob {
    oid: Option<String>,
    data: Vec<u8>,
}

impl Blob {
    /// A blob of the given bytes, not yet stored.
    pub fn new(data: Vec<u8>) -> (r: Blob)
        ensures
            r.bytes_view() == data@,
            r.oid_view() is None,
    {
        Blob { oid: None, data }
    }

    /// The id the blob was stored under, if known.
    pub fn get_oid(&self) -> (r: Option<&String>)
        ensures
            match r {
                Some(s) => self.oid_view() == Some(s@),
                None => self.oid_view() is None,
            },
    {
        match &self.oid {
            Some(s) => Some(s),
            None => None,
        }
    }

    /// A blob read from stored content: the content itself.
    pub fn parse(data: &[u8]) -> (r: Blob)
        ensures
            r.bytes_view() == data@,
            r.oid_view() is None,
    {
        Blob::new(vstd::slice::slice_to_vec(data))
    }
}

impl GitObject for Blob {
    open spec fn kind_view(&self) -> Seq<char> {
        "blob"@
    }

    closed spec fn bytes_view(&self) -> Seq<u8> {
        self.data@
    }

    closed spec fn oid_view(&self) -> Option<Seq<char>> {
        oid_opt(self.oid)
    }

    fn get_type(&self) -> (r: &str) {
        "blob"
    }

    fn to_bytes(&self) -> (r: Vec<u8>) {
        vstd::slice::slice_to_vec(self.data.as_slice())
    }

    fn set_oid(&mut self, oid: String) {
        self.oid = Some(oid);
    }
}

/// A sprint's metadata as a stored object.
pub struct SprintMetadataObject {
    oid: Option<String>,
    metadata: SprintMetadata,
}

impl SprintMetadataObject {
    /// The object for a sprint, not yet stored.
    pub fn new(metadata: SprintMetadata) -> (r: SprintMetadataObject)
        ensures
            r.metadata_view() == metadata,
            r.oid_view() is None,
    {
        SprintMetadataObject { oid: None, metadata }
    }

    /// The sprint it holds.
    pub closed spec fn metadata_view(&self) -> SprintMetadata {
        self.metadata
    }

    /// The sprint it holds.
    pub fn get_metadata(&self) -> (r: &SprintMetadata)
        ensures
            *r == self.metadata_view(),
    {
        &self.metadata
    }
}

impl GitObject for SprintMetadataObject {
    open spec fn kind_view(&self) -> Seq<char> {
        "sprint-meta"@
    }

    closed spec fn bytes_view(&self) -> Seq<u8> {
        encode_utf8(
            sprint_encoding(
                self.metadata.name@,
                self.metadata.start_timestamp as nat,
                self.metadata.duration_days as nat,
            ),
        )
    }

    closed spec fn oid_view(&self) -> Option<Seq<char>> {
        oid_opt(self.oid)
    }

    fn get_type(&self) -> (r: &str) {
        "sprint-meta"
    }

    fn to_bytes(&self) -> (r: Vec<u8>) {
        let e = self.metadata.encode();
        str_bytes(e.as_str())
    }

    fn set_oid(&mut self, oid: String)
        ensures
            final(self).metadata_view() == old(self).metadata_view(),
    {
        self.oid = Some(oid);
    }
}

/// A task's metadata as a stored object.
pub struct TaskMetadataObject {
    oid: Option<String>,
    metadata: TaskMetadata,
}

impl TaskMetadataObject {
    /// The object for a task, not yet stored.
    pub fn new(metadata: TaskMetadata) -> (r: TaskMetadataObject)
        ensures
            r.metadata_view() == metadata,
            r.oid_view() is None,
    {
        TaskMetadataObject { oid: None, metadata }
    }

    /// The task it holds.
    pub closed spec fn metadata_view(&self) -> TaskMetadata {
        self.metadata
    }

    /// The task it holds.
    pub fn get_metadata(&self) -> (r: &TaskMetadata)
        ensures
            *r == self.metadata_view(),
    {
        &self.metadata
    }
}

impl GitObject for TaskMetadataObject {
    open spec fn kind_view(&self) -> Seq<char> {
        "task-meta"@
    }

    closed spec fn bytes_view(&self) -> Seq<u8> {
        encode_utf8(
            task_encoding(
                self.metadata.id@,
                self.metadata.description@,
                match self.metadata.story_points {
                    Some(p) => Some(p as nat),
                    None => None,
                },
                self.metadata.status,
                self.metadata.created_at as nat,
                TaskMetadata::opt_nat(self.metadata.started_at),
                TaskMetadata::opt_nat(self.metadata.completed_at),
            ),
        )
    }

    closed spec fn oid_view(&self) -> Option<Seq<char>> {
        oid_opt(self.oid)
    }

    fn get_type(&self) -> (r: &str) {
        "task-meta"
    }

    fn to_bytes(&self) -> (r: Vec<u8>) {
        let e = self.metadata.encode();
        str_bytes(e.as_str())
    }

    fn set_oid(&mut self, oid: String)
        ensures
            final(self).metadata_view() == old(self).metadata_view(),
    {
        self.oid = Some(oid);
    }
}

} // verus!
