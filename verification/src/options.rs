//! Caller-facing option records: how the store is loaded, and the plain
//! data behind the instance-creation command.

use vstd::prelude::*;

verus! {

/// Options controlling how a configuration store is loaded from a path.
#[derive(Debug, Clone)]
pub struct Options {
    /// The document file name looked for in every ancestor directory.
    pub filename: String,
    /// Whether documents in parent directories participate as well.
    pub nested: bool,
    /// An explicit project root; when absent, the first ancestor holding
    /// the root marker bounds the walk.
    pub project_root: Option<String>,
}

impl Default for Options {
    /// The default load: nested discovery of `config.toml` files, with the
    /// project root found by the marker search.
    fn default() -> (r: Options)
        ensures
            r.filename@ == "config.toml"@,
            r.nested,
            r.project_root is None,
    {
        Options { filename: "config.toml".to_owned(), nested: true, project_root: None }
    }
}

/// The plain data behind the instance-creation command.
#[derive(Debug, Clone)]
pub struct CreateInstanceOptions {
    pub count: u8,
    pub keypair: Option<String>,
    pub image_id: String,
    pub instance_type: String,
    pub volume_type: String,
    pub volume_size: u8,
    pub security_group_id: Vec<String>,
    pub security_group_ids: Option<String>,
    pub user_data: Option<String>,
    pub tag: Vec<String>,
    pub instance_profile: Option<String>,
}

/// The volume kinds the instance-creation command knows.
#[derive(Debug, Clone, PartialEq, Eq)]
pub enum VolumeType {
    Gp2,
    Gp3,
    Io1,
    Io2,
    Sc1,
    St1,
    Standard,
}

} // verus!
