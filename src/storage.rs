use vstd::prelude::*;

verus! {

/// Storage that keeps nothing.
pub struct StorageMock {}

impl StorageMock {
    pub fn new() -> (r: StorageMock) {
        StorageMock {  }
    }
}

/// Storage of the application data as one JSON file.
pub struct JsonStorage {
    path: String,
}

impl JsonStorage {
    /// The file that this storage reads and writes.
    pub closed spec fn file(&self) -> Seq<char> {
        self.path@
    }

    pub fn new(path: String) -> (r: JsonStorage)
        ensures
            r.file() == path@,
    {
        JsonStorage { path }
    }

    pub fn path(&self) -> (r: &String)
        ensures
            r@ == self.file(),
    {
        &self.path
    }
}

} // verus!
