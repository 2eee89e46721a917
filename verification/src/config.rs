use vstd::prelude::*;

use crate::text::{concat3, contains, ends_with, str_contains, str_ends_with_char};

verus! {

/// Server configuration.
pub struct Config {
    pub port: u16,
    pub replication: Option<ReplicationConfig>,
    pub storage_path: String,
}

/// Where and how the storage is replicated.
#[derive(Debug, Clone)]
pub struct ReplicationConfig {
    pub access_key_id: String,
    pub secret_access_key: String,
    /// S3 url format: `https://<bucket-name>.s3.<region-code>.amazonaws.com/`
    pub bucket_url: String,
}

/// Why a configuration cannot be used.
#[derive(Debug, Clone, Copy, PartialEq, Eq, Structural)]
pub enum ConfigError {
    ReplicationInMemory,
    LitestreamNotFound,
    StorageDirectoryCreation,
    StorageNotDirectory,
}

impl ConfigError {
    /// The message reported for this error.
    pub fn message(&self) -> (r: &'static str)
        ensures
            r@ == config_error_message(*self),
    {
        match self {
            ConfigError::ReplicationInMemory => "Replication is not supported for inmemory storage",
            ConfigError::LitestreamNotFound => "Litestream command not found, can not perform replication",
            ConfigError::StorageDirectoryCreation => "Failed to create storage directory",
            ConfigError::StorageNotDirectory => "The storage path provided is not a directory",
        }
    }
}

pub open spec fn config_error_message(e: ConfigError) -> Seq<char> {
    match e {
        ConfigError::ReplicationInMemory => "Replication is not supported for inmemory storage"@,
        ConfigError::LitestreamNotFound => "Litestream command not found, can not perform replication"@,
        ConfigError::StorageDirectoryCreation => "Failed to create storage directory"@,
        ConfigError::StorageNotDirectory => "The storage path provided is not a directory"@,
    }
}

/// `base` and `name` joined by a single `/` (none is added when `base`
/// already ends with one).
pub open spec fn joined(base: Seq<char>, name: Seq<char>) -> Seq<char> {
    if ends_with(base, seq!['/']) {
        base + name
    } else {
        base + seq!['/'] + name
    }
}

/// `base` and `name` joined by a single `/`.
pub fn join_path(base: &str, name: &str) -> (r: String)
    ensures
        r@ == joined(base@, name@),
{
    let sep = if str_ends_with_char(base, '/') {
        ""
    } else {
        "/"
    };
    proof {
        reveal_strlit("");
        reveal_strlit("/");
    }
    let r = concat3(base, sep, name);
    proof {
        if ends_with(base@, seq!['/']) {
            assert(base@ + ""@ =~= base@);
        } else {
            assert("/"@ =~= seq!['/']);
        }
    }
    r
}

impl Config {
    /// Storage lives in memory.
    pub open spec fn spec_in_memory(&self) -> bool {
        contains(self.storage_path@, ":memory:"@)
    }

    /// Whether the storage lives in memory.
    pub fn using_inmemory_storage(&self) -> (r: bool)
        ensures
            r == self.spec_in_memory(),
    {
        str_contains(self.storage_path.as_str(), ":memory:")
    }

    /// Path of the seal database.
    pub fn seal_storage_path(&self) -> (r: String)
        ensures
            self.spec_in_memory() ==> r@ == self.storage_path@,
            !self.spec_in_memory() ==> r@ == joined(self.storage_path@, "seal.db"@),
    {
        if self.using_inmemory_storage() {
            self.storage_path.clone()
        } else {
            join_path(self.storage_path.as_str(), "seal.db")
        }
    }

    /// Path of the encrypted database.
    pub fn encrypted_storage_path(&self) -> (r: String)
        ensures
            self.spec_in_memory() ==> r@ == self.storage_path@,
            !self.spec_in_memory() ==> r@ == joined(self.storage_path@, "covert.db"@),
    {
        if self.using_inmemory_storage() {
            self.storage_path.clone()
        } else {
            join_path(self.storage_path.as_str(), "covert.db")
        }
    }

    /// The `litestream` command has to be checked for this configuration.
    pub fn needs_litestream(&self) -> (r: bool)
        ensures
            r == (self.replication is Some && !self.spec_in_memory()),
    {
        self.replication.is_some() && !self.using_inmemory_storage()
    }

    /// The storage directory has to be checked for this configuration.
    pub fn needs_storage_directory(&self) -> (r: bool)
        ensures
            r == !self.spec_in_memory(),
    {
        !self.using_inmemory_storage()
    }

    /// Checks the configuration, given the outcome of the checks on the
    /// machine: whether `litestream version` succeeded, whether the storage
    /// directory exists or could be created, and whether it is a directory.
    /// An outcome is only looked at when `needs_litestream` or
    /// `needs_storage_directory` asks for it.
    pub fn sanitize(&self, litestream_found: bool, storage_dir_ready: bool, storage_is_dir: bool) -> (r:
        Result<(), ConfigError>)
        ensures
            r == (if self.replication is Some && self.spec_in_memory() {
                Err(ConfigError::ReplicationInMemory)
            } else if self.replication is Some && !litestream_found {
                Err(ConfigError::LitestreamNotFound)
            } else if !self.spec_in_memory() && !storage_dir_ready {
                Err(ConfigError::StorageDirectoryCreation)
            } else if !self.spec_in_memory() && !storage_is_dir {
                Err(ConfigError::StorageNotDirectory)
            } else {
                Ok(())
            }),
    {
        let in_memory = self.using_inmemory_storage();
        if self.replication.is_some() {
            if in_memory {
                return Err(ConfigError::ReplicationInMemory);
            }
            if !litestream_found {
                return Err(ConfigError::LitestreamNotFound);
            }
        }
        if !in_memory {
            if !storage_dir_ready {
                return Err(ConfigError::StorageDirectoryCreation);
            }
            if !storage_is_dir {
                return Err(ConfigError::StorageNotDirectory);
            }
        }
        Ok(())
    }
}

impl ReplicationConfig {
    /// Bucket url of the seal database.
    pub fn seal_bucket_url(&self) -> (r: String)
        ensures
            r@ == joined(self.bucket_url@, "seal.db"@),
    {
        join_path(self.bucket_url.as_str(), "seal.db")
    }

    /// Bucket url of the encrypted database.
    pub fn encrypted_bucket_url(&self) -> (r: String)
        ensures
            r@ == joined(self.bucket_url@, "covert.db"@),
    {
        join_path(self.bucket_url.as_str(), "covert.db")
    }
}

} // verus!
