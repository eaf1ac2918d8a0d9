use vstd::prelude::*;

verus! {

/// Immutable run parameters for the retrying engine: the retry budget applied
/// to every item, the minimum time an item waits in the pending-retry queue
/// before it may be attempted again, and the declared (currently unenforced)
/// intent to preserve input order.
///
/// The delay is held as whole milliseconds. A plain bounded integer is what
/// the contracts can speak about, and it keeps every eligibility time the
/// queue computes within the clock's range (a `u32` of milliseconds is under
/// fifty days).
#[derive(Debug, Clone)]
pub struct Options {
    pub(crate) preserve_order: bool,
    pub(crate) num_retries: u8,
    pub(crate) min_delay: Option<u32>,
}

impl Options {
    /// The order-preservation flag as contracts see it.
    pub closed spec fn spec_preserve_order(self) -> bool {
        self.preserve_order
    }

    /// The retry budget as contracts see it.
    pub closed spec fn spec_num_retries(self) -> u8 {
        self.num_retries
    }

    /// The minimum inter-retry delay, in milliseconds, as contracts see it.
    pub closed spec fn spec_min_delay(self) -> Option<u32> {
        self.min_delay
    }

    /// Reads the order-preservation flag.
    pub fn preserve_order(&self) -> (r: bool)
        ensures
            r == self.spec_preserve_order(),
    {
        self.preserve_order
    }

    /// Reads the retry budget.
    pub fn num_retries(&self) -> (r: u8)
        ensures
            r == self.spec_num_retries(),
    {
        self.num_retries
    }

    /// Reads the minimum inter-retry delay, in milliseconds.
    pub fn min_delay(&self) -> (r: Option<u32>)
        ensures
            r == self.spec_min_delay(),
    {
        self.min_delay
    }
}

impl Default for Options {
    /// The configuration that an untouched builder produces: one retry,
    /// no minimum delay, order not preserved.
    fn default() -> (r: Options)
        ensures
            !r.spec_preserve_order(),
            r.spec_num_retries() == 1,
            r.spec_min_delay() is None,
    {
        OptionsBuilder::new().finalize()
    }
}

/// Builder for `Options`. Every setter returns a fresh builder value; a field
/// never set falls back to its default when the builder is finalized.
pub struct OptionsBuilder {
    preserve_order: Option<bool>,
    num_retries: Option<u8>,
    min_delay: Option<u32>,
}

impl Default for OptionsBuilder {
    /// A builder with nothing set, as `OptionsBuilder::new` gives.
    fn default() -> (r: OptionsBuilder)
        ensures
            r.spec_preserve_order() is None,
            r.spec_num_retries() is None,
            r.spec_min_delay() is None,
    {
        OptionsBuilder::new()
    }
}

impl OptionsBuilder {
    /// The order-preservation choice recorded so far, if any.
    pub closed spec fn spec_preserve_order(self) -> Option<bool> {
        self.preserve_order
    }

    /// The retry-budget choice recorded so far, if any.
    pub closed spec fn spec_num_retries(self) -> Option<u8> {
        self.num_retries
    }

    /// The delay choice recorded so far, in milliseconds, if any.
    pub closed spec fn spec_min_delay(self) -> Option<u32> {
        self.min_delay
    }

    /// A builder with nothing set.
    pub fn new() -> (r: Self)
        ensures
            r.spec_preserve_order() is None,
            r.spec_num_retries() is None,
            r.spec_min_delay() is None,
    {
        OptionsBuilder { preserve_order: None, num_retries: None, min_delay: None }
    }

    /// Records the order-preservation flag, leaving the other choices as they were.
    pub fn preserve_order(self, preserve_order: bool) -> (r: OptionsBuilder)
        ensures
            r.spec_preserve_order() == Some(preserve_order),
            r.spec_num_retries() == self.spec_num_retries(),
            r.spec_min_delay() == self.spec_min_delay(),
    {
        Self { preserve_order: Some(preserve_order), ..self }
    }

    /// Records the retry budget, leaving the other choices as they were.
    pub fn num_retries(self, num_retries: u8) -> (r: OptionsBuilder)
        ensures
            r.spec_num_retries() == Some(num_retries),
            r.spec_preserve_order() == self.spec_preserve_order(),
            r.spec_min_delay() == self.spec_min_delay(),
    {
        Self { num_retries: Some(num_retries), ..self }
    }

    /// Records the minimum inter-retry delay, in milliseconds, leaving the
    /// other choices as they were.
    pub fn min_delay(self, min_delay: u32) -> (r: OptionsBuilder)
        ensures
            r.spec_min_delay() == Some(min_delay),
            r.spec_preserve_order() == self.spec_preserve_order(),
            r.spec_num_retries() == self.spec_num_retries(),
    {
        Self { min_delay: Some(min_delay), ..self }
    }

    /// Materializes the immutable `Options`, substituting a default for every
    /// choice never made: order not preserved, one retry, no minimum delay.
    pub fn finalize(self) -> (r: Options)
        ensures
            r.spec_preserve_order() == (match self.spec_preserve_order() {
                Some(b) => b,
                None => false,
            }),
            r.spec_num_retries() == (match self.spec_num_retries() {
                Some(n) => n,
                None => 1u8,
            }),
            r.spec_min_delay() == self.spec_min_delay(),
    {
        Options {
            preserve_order: match self.preserve_order {
                Some(b) => b,
                None => false,
            },
            num_retries: match self.num_retries {
                Some(n) => n,
                None => 1,
            },
            min_delay: self.min_delay,
        }
    }
}

} // verus!
