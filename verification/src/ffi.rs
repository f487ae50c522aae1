//! The surface for mobile applications: storage choices, summaries and the
//! three kinds of error that an application tells apart.
use crate::client::{base_url, usual_options, HttpReplicaClient};
use crate::compaction::MaintenanceReport;
use crate::dir::DirReplicaClient;
use crate::error::{error_text, join, Error};
use crate::replica::SyncResult;
use crate::s3::S3Config;
use crate::writer::PushResult;
use vstd::prelude::*;

verus! {

/// Where a database's replica lives.
#[derive(Debug)]
pub enum Storage {
    /// A local directory.
    Dir { path: String },
    /// S3-compatible object storage.
    S3 {
        bucket: String,
        prefix: String,
        endpoint: Option<String>,
        region: Option<String>,
        access_key_id: Option<String>,
        secret_access_key: Option<String>,
        force_path_style: bool,
        allow_http: bool,
    },
    /// Another instance that serves its bucket over HTTP.
    Http { url: String },
}

/// A storage client, as far as it can be made without touching storage.
#[derive(Debug)]
pub enum ClientConfig {
    Dir(DirReplicaClient),
    S3(S3Config),
    Http(HttpReplicaClient),
}

/// The errors that an application tells apart.
#[derive(Debug)]
pub enum LitersError {
    /// The bucket's history no longer matches the local state; reset the
    /// replica to restore it again.
    Diverged { message: String },
    /// Storage or network failure; safe to retry the same call later.
    Storage { message: String },
    Other { message: String },
}

/// What an error says.
pub open spec fn liters_text(e: LitersError) -> Seq<char> {
    match e {
        LitersError::Diverged { message } => "diverged: "@ + message@,
        LitersError::Storage { message } => "storage: "@ + message@,
        LitersError::Other { message } => message@,
    }
}

impl LitersError {
    /// The error in words.
    pub fn message(&self) -> (r: String)
        ensures
            r@ == liters_text(*self),
    {
        match self {
            LitersError::Diverged { message } => join("diverged: ", message.as_str()),
            LitersError::Storage { message } => join("storage: ", message.as_str()),
            LitersError::Other { message } => message.as_str().to_owned(),
        }
    }
}

/// Which error an application sees.
pub fn map_error(e: &Error) -> (r: LitersError)
    ensures
        match *e {
            Error::Diverged { .. } => r matches LitersError::Diverged { message } && message@
                == error_text(*e),
            Error::Storage(_) => r matches LitersError::Storage { message } && message@
                == error_text(*e),
            _ => r matches LitersError::Other { message } && message@ == error_text(*e),
        },
{
    let message = e.message();
    match e {
        Error::Diverged { .. } => LitersError::Diverged { message },
        Error::Storage(_) => LitersError::Storage { message },
        _ => LitersError::Other { message },
    }
}

impl Storage {
    /// The storage client that a choice stands for. A url that cannot be used
    /// is refused.
    pub fn into_client(self) -> (r: Result<ClientConfig, LitersError>)
        ensures
            match self {
                Storage::Dir { path } => r matches Ok(ClientConfig::Dir(c)) && c@ == path@,
                Storage::S3 {
                    bucket,
                    prefix,
                    endpoint,
                    region,
                    access_key_id,
                    secret_access_key,
                    force_path_style,
                    allow_http,
                } => r == Ok::<ClientConfig, LitersError>(
                    ClientConfig::S3(
                        S3Config {
                            bucket,
                            prefix,
                            endpoint,
                            region,
                            access_key_id,
                            secret_access_key,
                            force_path_style,
                            allow_http,
                        },
                    ),
                ),
                Storage::Http { url } => match base_url(url@, false) {
                    Ok(u) => r matches Ok(ClientConfig::Http(c)) && c.base_url@ == u
                        && usual_options(c.opts),
                    Err(m) => r matches Err(LitersError::Other { message }) && message@ == m,
                },
            },
    {
        match self {
            Storage::Dir { path } => Ok(ClientConfig::Dir(DirReplicaClient::new(path.as_str()))),
            Storage::S3 {
                bucket,
                prefix,
                endpoint,
                region,
                access_key_id,
                secret_access_key,
                force_path_style,
                allow_http,
            } => Ok(
                ClientConfig::S3(
                    S3Config {
                        bucket,
                        prefix,
                        endpoint,
                        region,
                        access_key_id,
                        secret_access_key,
                        force_path_style,
                        allow_http,
                    },
                ),
            ),
            Storage::Http { url } => match HttpReplicaClient::new(url.as_str()) {
                Ok(c) => Ok(ClientConfig::Http(c)),
                Err(e) => Err(LitersError::Other { message: e.message() }),
            },
        }
    }
}

/// What a push did.
#[derive(Clone, Copy, Debug, PartialEq, Eq, Structural)]
pub struct PushSummary {
    /// Local replication position after the push.
    pub txid: u64,
    /// Whether new committed content was captured.
    pub synced: bool,
    /// Number of files uploaded by this push.
    pub uploaded: u64,
    /// The bucket's last transaction after the push.
    pub remote_txid: u64,
    /// Whether a checkpoint ran.
    pub checkpointed: bool,
}

/// What a sync did.
#[derive(Clone, Copy, Debug, PartialEq, Eq, Structural)]
pub struct SyncSummary {
    /// Whether a full restore ran.
    pub restored: bool,
    pub from_txid: u64,
    pub to_txid: u64,
}

/// What a maintenance run did.
#[derive(Clone, Debug, PartialEq, Eq)]
pub struct MaintenanceSummary {
    pub compacted_levels: Vec<u8>,
    pub snapshot_txid: Option<u64>,
    pub deleted_files: u64,
}

impl PushSummary {
    /// Sums up a push.
    pub fn of(r: PushResult) -> (s: PushSummary)
        ensures
            s == (PushSummary {
                txid: r.txid.0,
                synced: r.synced,
                uploaded: r.uploaded,
                remote_txid: r.remote_txid.0,
                checkpointed: r.checkpointed,
            }),
    {
        PushSummary {
            txid: r.txid.0,
            synced: r.synced,
            uploaded: r.uploaded,
            remote_txid: r.remote_txid.0,
            checkpointed: r.checkpointed,
        }
    }
}

impl SyncSummary {
    /// Sums up a sync.
    pub fn of(r: SyncResult) -> (s: SyncSummary)
        ensures
            s == (SyncSummary {
                restored: r.restored,
                from_txid: r.from_txid.0,
                to_txid: r.to_txid.0,
            }),
    {
        SyncSummary { restored: r.restored, from_txid: r.from_txid.0, to_txid: r.to_txid.0 }
    }
}

impl MaintenanceSummary {
    /// Sums up a maintenance run.
    pub fn of(r: MaintenanceReport) -> (s: MaintenanceSummary)
        ensures
            s.compacted_levels@ == r.compacted_levels@,
            s.snapshot_txid == match r.snapshot {
                Some(t) => Some(t.0),
                None => None,
            },
            s.deleted_files == r.deleted,
    {
        let snapshot_txid = match r.snapshot {
            Some(t) => Some(t.0),
            None => None,
        };
        MaintenanceSummary {
            compacted_levels: r.compacted_levels,
            snapshot_txid,
            deleted_files: r.deleted as u64,
        }
    }
}

} // verus!
