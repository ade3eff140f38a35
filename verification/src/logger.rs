//! A log-sink capability and a predicate-filtering wrapper around it.
use vstd::prelude::*;

verus! {

/// A sink for log messages of a given verbosity.
pub trait Logger {
    /// Logs one message at `verbosity`.
    fn log(&self, verbosity: u8, message: &str);
}

/// Passes a message on to the wrapped logger only when the callback approves
/// of it.
pub struct Filter<T: Logger, F: Fn(u8, &str) -> bool> {
    logger: T,
    callback: F,
}

impl<T: Logger, F: Fn(u8, &str) -> bool> Filter<T, F> {
    /// The callback can be asked about any message.
    #[verifier::type_invariant]
    spec fn callback_callable(self) -> bool {
        forall|v: u8, m: &str| self.callback.requires((v, m))
    }

    /// The wrapped logger.
    pub closed spec fn spec_logger(self) -> T {
        self.logger
    }

    /// The approval callback.
    pub closed spec fn spec_callback(self) -> F {
        self.callback
    }

    /// Wraps `logger` so that only messages approved by `callback` reach it.
    pub fn new(logger: T, callback: F) -> (r: Filter<T, F>)
        requires
            forall|v: u8, m: &str| callback.requires((v, m)),
        ensures
            r.spec_logger() == logger,
            r.spec_callback() == callback,
    {
        Filter { logger, callback }
    }
}

impl<T: Logger, F: Fn(u8, &str) -> bool> Logger for Filter<T, F> {
    fn log(&self, verbosity: u8, message: &str) {
        proof {
            use_type_invariant(self);
        }
        if (self.callback)(verbosity, message) {
            self.logger.log(verbosity, message);
        }
    }
}

} // verus!
