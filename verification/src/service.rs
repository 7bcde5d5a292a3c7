use vstd::prelude::*;

use crate::gate::authorize;
use crate::gate::opt_view;
use crate::gate::spec_authorize;
use crate::gate::AuthError;
use crate::keys::generate;
use crate::keys::key_of;
use crate::keys::key_safe;
use crate::store::ObjModel;
use crate::store::ObjectStore;

verus! {

/// Retention window applied when none is configured: three days.
pub const DEFAULT_RETENTION_WINDOW_SECS: u64 = 259200;

/// Pause between two sweeper passes when none is configured.
pub const DEFAULT_SWEEP_INTERVAL_SECS: u64 = 10;

/// Largest upload body accepted at the HTTP boundary when no other cap
/// is configured.
pub const DEFAULT_PAYLOAD_CAP_BYTES: usize = 500000;

/// The process-wide configuration, built once at startup and immutable
/// afterwards.
pub struct Config {
    /// The shared secret that gates writes.
    pub secret: String,
    /// Maximum age an object may reach before the sweeper deletes it.
    pub retention_window_secs: u64,
    /// Pause between two sweeper passes.
    pub sweep_interval_secs: u64,
    /// Largest upload body accepted at the HTTP boundary.
    pub payload_cap_bytes: usize,
}

impl Config {
    /// Builds the startup configuration.
    pub fn new(
        secret: String,
        retention_window_secs: u64,
        sweep_interval_secs: u64,
        payload_cap_bytes: usize,
    ) -> (c: Config)
        ensures
            c.secret == secret,
            c.retention_window_secs == retention_window_secs,
            c.sweep_interval_secs == sweep_interval_secs,
            c.payload_cap_bytes == payload_cap_bytes,
    {
        Config { secret, retention_window_secs, sweep_interval_secs, payload_cap_bytes }
    }

    /// The size guard applied to an upload body before it is handed to
    /// the store.
    pub fn payload_within_cap(&self, len: usize) -> (r: bool)
        ensures
            r == (len <= self.payload_cap_bytes),
    {
        len <= self.payload_cap_bytes
    }
}

/// The outcome of one write request.
pub enum UploadOutcome {
    /// The object was written; the client receives the key it was
    /// stored under.
    Stored(String),
    /// The request did not pass the access check; nothing was written.
    Rejected(AuthError),
    /// The derived key could escape the namespace (the caller
    /// identifier held a path separator or the like); nothing was
    /// written.
    InvalidKey,
}

/// Handles one write request: validates the headers against the shared
/// secret, derives the object key from the current time and the caller
/// identifier, and writes the body into the store. A refused request
/// leaves the store exactly as it was.
pub fn handle_upload(
    store: &mut ObjectStore,
    secret: &str,
    api_key: Option<&str>,
    user_id: Option<&str>,
    body: Vec<u8>,
    now: u64,
) -> (r: UploadOutcome)
    requires
        old(store).wf(),
    ensures
        final(store).wf(),
        match spec_authorize(secret@, opt_view(api_key), opt_view(user_id)) {
            Err(e) => r == UploadOutcome::Rejected(e) && final(store)@ == old(store)@,
            Ok(u) => if key_safe(key_of(now, u)) {
                r matches UploadOutcome::Stored(k) && k@ == key_of(now, u) && final(store)@ == old(
                    store,
                )@.insert(key_of(now, u), ObjModel { payload: body@, created_at: now })
            } else {
                r matches UploadOutcome::InvalidKey && final(store)@ == old(store)@
            },
        },
{
    let uid = match authorize(secret, api_key, user_id) {
        Ok(u) => u,
        Err(e) => {
            return UploadOutcome::Rejected(e);
        },
    };
    let key = generate(now, uid);
    match store.put(key.as_str(), body, now) {
        Ok(_) => UploadOutcome::Stored(key),
        Err(_) => UploadOutcome::InvalidKey,
    }
}

} // verus!
