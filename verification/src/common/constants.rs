//! Limits that the services share, and the environment that a build is made
//! for.

use crate::identity::{principal_from_text, Identity};
use vstd::prelude::*;

verus! {

/// How long an answer may be kept, in seconds.
pub const DEFAULT_TTL: u64 = 60 * 10;

pub const PAGE_INPUT_MIN_LIMIT: usize = 1;

pub const PAGE_INPUT_MAX_LIMIT: usize = 100;

pub const PAGE_INPUT_MIN_OFFSET: usize = 0;

pub const PAGE_INPUT_MAX_OFFSET: usize = 10_000;

pub const ENV_DEV: &'static str = "dev";

pub const ENV_STAGING: &'static str = "staging";

pub const ENV_PRODUCTION: &'static str = "production";

/// The environment of this build.
pub const ENV: &'static str = ENV_DEV;

/// The environments that a build can be made for.
#[derive(Debug, Clone, Copy, PartialEq, Eq, Structural)]
pub enum CommonEnv {
    Dev,
    Staging,
    Production,
}

impl CommonEnv {
    /// The name of the environment.
    pub open spec fn name(self) -> Seq<char> {
        match self {
            CommonEnv::Dev => "dev"@,
            CommonEnv::Staging => "staging"@,
            CommonEnv::Production => "production"@,
        }
    }
}

/// Whether a name is the name of an environment.
pub fn env_matches(current: &str, env: CommonEnv) -> (same: bool)
    ensures
        same == (current@ == env.name()),
{
    let name = match env {
        CommonEnv::Dev => ENV_DEV,
        CommonEnv::Staging => ENV_STAGING,
        CommonEnv::Production => ENV_PRODUCTION,
    };
    String::from_str(current) == String::from_str(name)
}

/// Whether this build is made for an environment.
pub fn is_env(env: CommonEnv) -> (same: bool)
    ensures
        same == (env == CommonEnv::Dev),
{
    proof {
        reveal_strlit("dev");
        reveal_strlit("staging");
        reveal_strlit("production");
        assert(ENV@ == "dev"@);
        assert("dev"@.len() == 3 && "staging"@.len() == 7 && "production"@.len() == 10);
    }
    env_matches(ENV, env)
}

/// Whether this build is made for development.
pub fn is_dev_env() -> (dev: bool)
    ensures
        dev,
{
    is_env(CommonEnv::Dev)
}

/// The identity of a service: the one that the development list gives it,
/// where the build is made for development and the list names the service;
/// else the one that the configured text stands for, if it stands for one.
pub fn load_dev_or_env(dev_id: Option<Identity>, env_value: &str) -> (id: Option<Identity>)
    ensures
        match dev_id {
            Some(listed) => id matches Some(i) && i@ == listed@,
            None => match principal_from_text(env_value@) {
                Some(bytes) => id matches Some(i) && i@ == bytes,
                None => id is None,
            },
        },
{
    if is_dev_env() {
        if let Some(id) = dev_id {
            return Some(id);
        }
    }
    Identity::from_text(env_value)
}

} // verus!
