//! Project configuration values: where the debug stub listens and where
//! the type headers live. Loading and saving the file is the
//! application's business; the values themselves live here.
use vstd::prelude::*;

verus! {

/// Connection settings for the debug stub.
pub struct GdbConfig {
    pub address: String,
}

impl GdbConfig {
    /// The default stub address on the local machine.
    pub fn new() -> (r: Self)
        ensures
            r.address@ == "127.0.0.1:3333"@,
    {
        GdbConfig { address: "127.0.0.1:3333".to_owned() }
    }
}

/// Where the header-parsing task looks for type declarations.
pub struct TypesConfig {
    pub project_root: String,
    pub include_paths: Vec<String>,
    pub ignore_paths: Vec<String>,
}

impl TypesConfig {
    /// An empty configuration: no project root, no paths.
    pub fn new() -> (r: Self)
        ensures
            r.project_root@ == Seq::<char>::empty(),
            r.include_paths@ == Seq::<String>::empty(),
            r.ignore_paths@ == Seq::<String>::empty(),
    {
        TypesConfig {
            project_root: String::new(),
            include_paths: Vec::new(),
            ignore_paths: Vec::new(),
        }
    }
}

} // verus!
