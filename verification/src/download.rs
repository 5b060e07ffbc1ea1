//! The retry policy for fetching a mod file into the download cache.

use vstd::prelude::*;

verus! {

/// How many times a file is downloaded before the manager gives up.
pub const MAX_DOWNLOAD_ATTEMPTS: u32 = 5;

/// What to do next for a mod file.
#[derive(Debug, PartialEq, Eq, Structural)]
pub enum DownloadDecision {
    /// The file is in the cache: use it.
    UseCached,
    /// Download the file; `retries_left` is the count reported if this attempt fails.
    Download { retries_left: u32 },
    /// Every attempt is spent: give up.
    GiveUp,
}

/// Attempts made so far for one mod file.
pub struct DownloadRetry {
    attempt: u32,
}

impl DownloadRetry {
    #[verifier::type_invariant]
    spec fn bounded(self) -> bool {
        self.attempt <= MAX_DOWNLOAD_ATTEMPTS
    }
}

impl View for DownloadRetry {
    type V = nat;

    closed spec fn view(&self) -> nat {
        self.attempt as nat
    }
}

impl DownloadRetry {
    /// No attempt made yet.
    pub fn new() -> (r: Self)
        ensures
            r@ == 0,
    {
        DownloadRetry { attempt: 0 }
    }

    /// Attempts made so far.
    pub fn attempts(&self) -> (r: u32)
        ensures
            r == self@,
            r <= MAX_DOWNLOAD_ATTEMPTS,
    {
        proof {
            use_type_invariant(self);
        }
        self.attempt
    }

    /// Decides the next step, given whether the file is now in the cache: while
    /// attempts remain, a cached file is used and otherwise one more download is
    /// made; once all attempts are spent the manager gives up without looking
    /// at the cache again.
    pub fn next(&mut self, cached: bool) -> (r: DownloadDecision)
        ensures
            final(self)@ <= MAX_DOWNLOAD_ATTEMPTS,
            old(self)@ >= MAX_DOWNLOAD_ATTEMPTS ==> r == DownloadDecision::GiveUp && final(self)@
                == old(self)@,
            old(self)@ < MAX_DOWNLOAD_ATTEMPTS && cached ==> r == DownloadDecision::UseCached
                && final(self)@ == old(self)@,
            old(self)@ < MAX_DOWNLOAD_ATTEMPTS && !cached ==> r == (DownloadDecision::Download {
                retries_left: (MAX_DOWNLOAD_ATTEMPTS - old(self)@) as u32,
            }) && final(self)@ == old(self)@ + 1,
    {
        proof {
            use_type_invariant(&*self);
        }
        if self.attempt >= MAX_DOWNLOAD_ATTEMPTS {
            DownloadDecision::GiveUp
        } else if cached {
            DownloadDecision::UseCached
        } else {
            let retries_left = MAX_DOWNLOAD_ATTEMPTS - self.attempt;
            self.attempt = self.attempt + 1;
            DownloadDecision::Download { retries_left }
        }
    }
}

} // verus!
