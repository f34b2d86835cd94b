//! What is kept of a license between the answers of the license server.
//!
//! The server is asked by the caller; its answers are handed in.

use crate::models::Duplicate;
use crate::text::{is_blank, trim, trimmed_text};
use vstd::prelude::*;
use vstd::string::StringExecFns;

verus! {

/// The number of seconds in seven days.
pub const REVALIDATE_AFTER_SECS: i64 = 604800;

/// What the server answers to an activation.
#[derive(Debug, Clone)]
pub struct ActivateResp {
    pub success: bool,
    pub instance_id: Option<String>,
    pub message: String,
    pub expires_at: Option<i64>,
    pub max_seats: Option<u32>,
    pub used_seats: Option<u32>,
}

/// What the server answers to a validation.
#[derive(Debug, Clone)]
pub struct ValidateResp {
    pub success: bool,
    pub valid: bool,
    pub message: String,
    pub expires_at: Option<i64>,
    pub max_seats: Option<u32>,
    pub used_seats: Option<u32>,
    pub instance_name: Option<String>,
}

/// What the server answers to a deactivation.
#[derive(Debug, Clone)]
pub struct DeactivateResp {
    pub success: bool,
    pub message: String,
}

/// The license as the shell sees it.
#[derive(Debug, Clone)]
pub struct LicenseStatus {
    pub is_licensed: bool,
    pub license_key: Option<String>,
    pub instance_id: Option<String>,
    pub instance_name: Option<String>,
    pub expires_at: Option<i64>,
    pub max_seats: Option<u32>,
    pub used_seats: Option<u32>,
    pub last_validated: Option<i64>,
    pub is_offline_grace: bool,
    pub grace_expires_at: Option<i64>,
    pub days_remaining: Option<i64>,
    pub status_message: String,
}

/// Where the license server is.
#[derive(Debug, Clone)]
pub struct LicenseManager {
    pub api_base_url: String,
}

impl LicenseManager {
    pub fn new() -> (out: LicenseManager)
        ensures
            out.api_base_url@ == "https://api.whitespace.app/v1"@,
    {
        LicenseManager { api_base_url: String::from_str("https://api.whitespace.app/v1") }
    }

    /// The address of an endpoint of the server.
    pub fn endpoint_url(&self, endpoint: &str) -> (out: String)
        ensures
            out@ == self.api_base_url@ + "/"@ + endpoint@,
    {
        let a = crate::text::join2(self.api_base_url.as_str(), "/");
        crate::text::join2(a.as_str(), endpoint)
    }
}

/// What is kept of the license. Times are in seconds since the Unix
/// epoch.
#[derive(Debug, Clone)]
pub struct LicenseCache {
    pub license_key: Option<String>,
    pub instance_id: Option<String>,
    pub instance_name: Option<String>,
    pub last_validated_at: Option<i64>,
    /// `valid`, `invalid`, `grace` or `deactivated`.
    pub status: Option<String>,
}

impl Default for LicenseCache {
    fn default() -> (out: Self)
        ensures
            out.license_key is None,
            out.instance_id is None,
            out.instance_name is None,
            out.last_validated_at is None,
            out.status is None,
    {
        LicenseCache {
            license_key: None,
            instance_id: None,
            instance_name: None,
            last_validated_at: None,
            status: None,
        }
    }
}

/// The whole days from `then` to `now`, both in seconds, rounded toward
/// zero.
pub open spec fn days_since(then: i64, now: i64) -> int {
    let diff = now - then;
    if diff >= 0 {
        diff / 86400
    } else {
        -((-diff) / 86400)
    }
}

/// Keeps the license between the answers of the server.
#[derive(Debug, Clone)]
pub struct LicenseStorage {
    pub cache: LicenseCache,
}

impl LicenseStorage {
    pub fn new() -> (out: LicenseStorage)
        ensures
            out.cache.license_key is None,
            out.cache.instance_id is None,
            out.cache.instance_name is None,
            out.cache.last_validated_at is None,
            out.cache.status is None,
    {
        LicenseStorage { cache: LicenseCache::default() }
    }

    /// Keeps a license that was activated at `now`.
    pub fn store_license_data(
        &mut self,
        license_key: &str,
        instance_id: &str,
        instance_name: &str,
        now: i64,
    )
        ensures
            final(self).cache.license_key is Some && final(self).cache.license_key->0@
                == license_key@,
            final(self).cache.instance_id is Some && final(self).cache.instance_id->0@
                == instance_id@,
            final(self).cache.instance_name is Some && final(self).cache.instance_name->0@
                == instance_name@,
            final(self).cache.last_validated_at == Some(now),
            final(self).cache.status is Some && final(self).cache.status->0@ == "valid"@,
    {
        self.cache.license_key = Some(String::from_str(license_key));
        self.cache.instance_id = Some(String::from_str(instance_id));
        self.cache.instance_name = Some(String::from_str(instance_name));
        self.cache.last_validated_at = Some(now);
        self.cache.status = Some(String::from_str("valid"));
    }

    /// The key, the instance and the name of the instance that are kept.
    pub fn get_license_data(&self) -> (out: (Option<String>, Option<String>, Option<String>))
        ensures
            out.0 == self.cache.license_key,
            out.1 == self.cache.instance_id,
            out.2 == self.cache.instance_name,
    {
        (
            self.cache.license_key.duplicate(),
            self.cache.instance_id.duplicate(),
            self.cache.instance_name.duplicate(),
        )
    }

    /// When the license was last validated.
    pub fn get_last_validated(&self) -> (out: Option<i64>)
        ensures
            out == self.cache.last_validated_at,
    {
        self.cache.last_validated_at
    }

    /// Forgets the license.
    pub fn clear_license_data(&mut self)
        ensures
            final(self).cache.license_key is None,
            final(self).cache.instance_id is None,
            final(self).cache.instance_name is None,
            final(self).cache.last_validated_at is None,
            final(self).cache.status is None,
    {
        self.cache = LicenseCache::default();
    }

    /// Notes the status that the server gave at `now`.
    pub fn update_status(&mut self, status: &str, now: i64)
        ensures
            final(self).cache.status is Some && final(self).cache.status->0@ == status@,
            final(self).cache.last_validated_at == Some(now),
            final(self).cache.license_key == old(self).cache.license_key,
            final(self).cache.instance_id == old(self).cache.instance_id,
            final(self).cache.instance_name == old(self).cache.instance_name,
    {
        self.cache.status = Some(String::from_str(status));
        self.cache.last_validated_at = Some(now);
    }

    /// The license as the shell sees it: licensed where a key and an
    /// instance are kept; the status as the server last gave it, or
    /// `No license`.
    pub fn ls_get_status(&self) -> (out: LicenseStatus)
        ensures
            out.is_licensed == (self.cache.license_key is Some && self.cache.instance_id is Some),
            out.license_key == self.cache.license_key,
            out.instance_id == self.cache.instance_id,
            out.instance_name == self.cache.instance_name,
            out.expires_at is None,
            out.max_seats is None,
            out.used_seats is None,
            out.last_validated == (match self.cache.last_validated_at {
                Some(secs) => if -0x20c49ba5e353f7 <= secs <= 0x20c49ba5e353f7 {
                    Some((secs * 1000) as i64)
                } else {
                    Some(0i64)
                },
                None => None,
            }),
            !out.is_offline_grace,
            out.grace_expires_at is None,
            out.days_remaining is None,
            out.status_message@ == (match self.cache.status {
                Some(s) => s@,
                None => "No license"@,
            }),
    {
        LicenseStatus {
            is_licensed: self.cache.license_key.is_some() && self.cache.instance_id.is_some(),
            license_key: self.cache.license_key.duplicate(),
            instance_id: self.cache.instance_id.duplicate(),
            instance_name: self.cache.instance_name.duplicate(),
            expires_at: None,
            max_seats: None,
            used_seats: None,
            last_validated: match self.cache.last_validated_at {
                Some(secs) => if -0x20c49ba5e353f7 <= secs && secs <= 0x20c49ba5e353f7 {
                    Some(secs * 1000)
                } else {
                    Some(0)
                },
                None => None,
            },
            is_offline_grace: false,
            grace_expires_at: None,
            days_remaining: None,
            status_message: match &self.cache.status {
                Some(s) => s.clone(),
                None => String::from_str("No license"),
            },
        }
    }

    /// Whether the license must be validated at `now`: no key or no
    /// instance is kept, it was never validated, or seven days or more
    /// have passed since.
    pub fn ls_check_validation_needed(&self, now: i64) -> (r: bool)
        ensures
            r == (self.cache.license_key is None || self.cache.instance_id is None
                || self.cache.last_validated_at is None || days_since(
                self.cache.last_validated_at->0,
                now,
            ) >= 7),
    {
        if self.cache.license_key.is_none() || self.cache.instance_id.is_none() {
            return true;
        }
        match self.cache.last_validated_at {
            Some(last) => {
                let diff: i128 = now as i128 - last as i128;
                let days: i128 = if diff >= 0 {
                    diff / 86400
                } else {
                    -((-diff) / 86400)
                };
                days >= 7
            },
            None => true,
        }
    }

    /// Keeps what an activation gave, at `now`: where it succeeded and
    /// named an instance, the key, that instance and its name.
    pub fn record_activation(
        &mut self,
        license_key: &str,
        instance_name: &str,
        response: &ActivateResp,
        now: i64,
    )
        ensures
            response.success && response.instance_id is Some ==> {
                &&& final(self).cache.license_key is Some && final(self).cache.license_key->0@
                    == license_key@
                &&& final(self).cache.instance_id is Some && final(self).cache.instance_id->0@
                    == response.instance_id->0@
                &&& final(self).cache.instance_name is Some && final(self).cache.instance_name->0@
                    == instance_name@
                &&& final(self).cache.last_validated_at == Some(now)
                &&& final(self).cache.status is Some && final(self).cache.status->0@ == "valid"@
            },
            !(response.success && response.instance_id is Some) ==> *final(self) == *old(self),
    {
        if response.success {
            match &response.instance_id {
                Some(id) => {
                    self.store_license_data(license_key, id.as_str(), instance_name, now);
                },
                None => {},
            }
        }
    }

    /// Keeps what a validation gave, at `now`: where it succeeded and
    /// the license is valid, the status `valid`.
    pub fn record_validation(&mut self, response: &ValidateResp, now: i64)
        ensures
            response.success && response.valid ==> {
                &&& final(self).cache.status is Some && final(self).cache.status->0@ == "valid"@
                &&& final(self).cache.last_validated_at == Some(now)
                &&& final(self).cache.license_key == old(self).cache.license_key
                &&& final(self).cache.instance_id == old(self).cache.instance_id
                &&& final(self).cache.instance_name == old(self).cache.instance_name
            },
            !(response.success && response.valid) ==> *final(self) == *old(self),
    {
        if response.success && response.valid {
            self.update_status("valid", now);
        }
    }

    /// Keeps what a deactivation gave: where it succeeded, nothing.
    pub fn record_deactivation(&mut self, response: &DeactivateResp)
        ensures
            response.success ==> {
                &&& final(self).cache.license_key is None
                &&& final(self).cache.instance_id is None
                &&& final(self).cache.instance_name is None
                &&& final(self).cache.last_validated_at is None
                &&& final(self).cache.status is None
            },
            !response.success ==> *final(self) == *old(self),
    {
        if response.success {
            self.clear_license_data();
        }
    }
}

/// The two texts of a request to the server, without the white space
/// around them; neither may be blank. `second_name` names the second text
/// in the message.
pub fn check_license_request(first: &str, second: &str, second_name: &str) -> (out: Result<
    (String, String),
    String,
>)
    ensures
        match out {
            Ok((a, b)) => {
                &&& trimmed_text(first@).len() > 0
                &&& trimmed_text(second@).len() > 0
                &&& a@ == trimmed_text(first@)
                &&& b@ == trimmed_text(second@)
            },
            Err(message) => if trimmed_text(first@).len() == 0 {
                message@ == "License key cannot be empty"@
            } else {
                trimmed_text(second@).len() == 0 && message@ == second_name@ + " cannot be empty"@
            },
        },
{
    if is_blank(first) {
        return Err(String::from_str("License key cannot be empty"));
    }
    if is_blank(second) {
        return Err(crate::text::join2(second_name, " cannot be empty"));
    }
    Ok((trim(first), trim(second)))
}

/// A store for a license that keeps nothing yet.
pub fn create_license_storage() -> (out: LicenseStorage)
    ensures
        out.cache.license_key is None,
        out.cache.instance_id is None,
        out.cache.instance_name is None,
        out.cache.last_validated_at is None,
        out.cache.status is None,
{
    LicenseStorage::new()
}

} // verus!
