//! The description of one input file.

use std::path::PathBuf;

use vstd::prelude::*;

use crate::format::{file_type_of, FileType};

verus! {

/// One input of a run: where it lies, what it is called, how large it is and
/// which container it is. It is made once and never changed.
#[derive(Debug)]
pub struct WorkItem {
    name: String,
    format: FileType,
    path: PathBuf,
    size: u64,
}

impl WorkItem {
    /// The name shown for the file.
    pub closed spec fn name(&self) -> Seq<char> {
        self.name@
    }

    /// The container of the file.
    pub closed spec fn format(&self) -> FileType {
        self.format
    }

    /// Where the file lies.
    pub closed spec fn path(&self) -> PathBuf {
        self.path
    }

    /// The size of the file in bytes.
    pub closed spec fn size(&self) -> u64 {
        self.size
    }

    /// Describes the file at `path`, called `name` and `size` bytes long, whose
    /// first bytes are `head`. The container is told from those bytes.
    pub fn new(path: PathBuf, name: String, head: &[u8], size: u64) -> (item: WorkItem)
        ensures
            item.path() == path,
            item.name() == name@,
            item.format() == file_type_of(head@),
            item.size() == size,
    {
        WorkItem { name, format: FileType::detect(head), path, size }
    }

    /// The name shown for the file.
    pub fn get_name(&self) -> (name: &str)
        ensures
            name@ == self.name(),
    {
        self.name.as_str()
    }

    /// The container of the file.
    pub fn get_format(&self) -> (format: FileType)
        ensures
            format == self.format(),
    {
        self.format
    }

    /// Where the file lies.
    pub fn get_path(&self) -> (path: &PathBuf)
        ensures
            *path == self.path(),
    {
        &self.path
    }

    /// The size of the file in bytes.
    pub fn get_size(&self) -> (size: u64)
        ensures
            size == self.size(),
    {
        self.size
    }
}

} // verus!
