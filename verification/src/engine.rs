//! The engine facade's lifecycle: idle until a checkout binds one watched
//! root, then watching it until shutdown. The decision of whether and how
//! a checkout proceeds is made here over plain observations; creating
//! directories, loading the configuration and spawning the watcher,
//! scanner and cleaner tasks is the caller's.

use vstd::prelude::*;

verus! {

/// The daemon's lifecycle: no root checked out, or exactly one.
pub enum EngineState {
    Idle,
    Watching { root: String },
}

/// Why a checkout was refused.
#[derive(Clone, Copy, PartialEq, Eq, Structural, Debug)]
pub enum CheckoutError {
    /// The directory is not an absolute path.
    NotAbsolute,
    /// The directory does not exist.
    Missing,
    /// A root is already being watched; re-checkout is refused.
    AlreadyCheckedOut,
}

/// What a granted checkout asks the caller to do before watching starts.
#[derive(Debug)]
pub struct CheckoutPlan {
    /// Create the metadata directory, write the default configuration
    /// and an empty index: set when no configuration file exists yet.
    pub initialize: bool,
}

impl EngineState {
    /// Decides a checkout request from what the caller observed of the
    /// directory: the path must be absolute and exist, and no other root
    /// may be checked out. On success the state moves to watching the
    /// directory, with an initialization step exactly when the metadata
    /// configuration is absent.
    pub fn checkout(
        &mut self,
        directory: String,
        is_absolute: bool,
        dir_exists: bool,
        config_exists: bool,
    ) -> (r: Result<CheckoutPlan, CheckoutError>)
        ensures
            ({
                let o = *old(self);
                let f = *final(self);
                if !is_absolute {
                    r == Err::<CheckoutPlan, CheckoutError>(CheckoutError::NotAbsolute) && f == o
                } else if !dir_exists {
                    r == Err::<CheckoutPlan, CheckoutError>(CheckoutError::Missing) && f == o
                } else if !(o is Idle) {
                    r == Err::<CheckoutPlan, CheckoutError>(CheckoutError::AlreadyCheckedOut) && f
                        == o
                } else {
                    &&& (r matches Ok(plan) && plan.initialize == !config_exists)
                    &&& (f matches EngineState::Watching { root } && root@ == directory@)
                }
            }),
    {
        if !is_absolute {
            return Err(CheckoutError::NotAbsolute);
        }
        if !dir_exists {
            return Err(CheckoutError::Missing);
        }
        match self {
            EngineState::Watching { .. } => Err(CheckoutError::AlreadyCheckedOut),
            EngineState::Idle => {
                *self = EngineState::Watching { root: directory };
                Ok(CheckoutPlan { initialize: !config_exists })
            },
        }
    }

    /// The periodic watchdog's decision: when the metadata directory is
    /// gone, the engine falls back to idle and the daemon shuts down.
    pub fn watchdog_tick(&mut self, meta_dir_exists: bool) -> (shutdown: bool)
        ensures
            shutdown == ((*old(self)) is Watching && !meta_dir_exists),
            shutdown ==> *final(self) == (EngineState::Idle),
            !shutdown ==> *final(self) == *old(self),
    {
        match self {
            EngineState::Idle => false,
            EngineState::Watching { .. } => {
                if !meta_dir_exists {
                    *self = EngineState::Idle;
                    true
                } else {
                    false
                }
            },
        }
    }
}

} // verus!
