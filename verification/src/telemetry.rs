//! Settings of the instruments and of span sampling that surround the cache.

use vstd::prelude::*;

verus! {

/// A standard instrument is switched by a flag, or configured by a set of
/// attributes, which also switches it on.
#[derive(Debug)]
pub enum DefaultedStandardInstrument<T> {
    Bool(bool),
    Extendable { attributes: T },
}

impl<T> DefaultedStandardInstrument<T> {
    /// Whether the instrument records anything.
    pub open spec fn enabled(self) -> bool {
        match self {
            DefaultedStandardInstrument::Bool(enabled) => enabled,
            DefaultedStandardInstrument::Extendable { .. } => true,
        }
    }

    /// An instrument is enabled unless its flag says otherwise.
    pub fn is_enabled(&self) -> (enabled: bool)
        ensures
            enabled == self.enabled(),
    {
        match self {
            DefaultedStandardInstrument::Bool(enabled) => *enabled,
            DefaultedStandardInstrument::Extendable { .. } => true,
        }
    }
}

impl<T: Clone> Clone for DefaultedStandardInstrument<T> {
    /// A copy is enabled exactly when the instrument is.
    fn clone(&self) -> (copy: Self)
        ensures
            copy.enabled() == self.enabled(),
    {
        match self {
            DefaultedStandardInstrument::Bool(enabled) => DefaultedStandardInstrument::Bool(
                *enabled,
            ),
            DefaultedStandardInstrument::Extendable { attributes } => {
                DefaultedStandardInstrument::Extendable { attributes: attributes.clone() }
            },
        }
    }
}

impl<T> Default for DefaultedStandardInstrument<T> {
    /// Standard instruments are on by default.
    fn default() -> (instrument: Self)
        ensures
            instrument == DefaultedStandardInstrument::<T>::Bool(true),
            instrument.enabled(),
    {
        DefaultedStandardInstrument::Bool(true)
    }
}

/// What is known of the span inside which a new span or event arrives.
#[derive(Clone, Copy, Debug, PartialEq, Eq, Structural)]
pub enum ParentSpan {
    /// There is none: the new span is a root.
    Root,
    /// An identifier is current, but no span is registered under it.
    Unknown,
    /// The span is registered; `sampled` tells whether it was marked when it
    /// was created.
    Known { sampled: bool },
}

/// Decides which spans are recorded: the decision is drawn once for a root
/// span and inherited by every span below it.
#[derive(Clone, Copy, Debug)]
pub struct SamplingFilter {}

impl SamplingFilter {
    pub fn new() -> (filter: Self) {
        Self {  }
    }

    /// Events always pass. A root span passes when the draw says so, and any
    /// other span passes exactly when its parent was sampled.
    pub open spec fn passes(is_span: bool, parent: ParentSpan, draw: bool) -> bool {
        if is_span {
            match parent {
                ParentSpan::Root => draw,
                ParentSpan::Unknown => false,
                ParentSpan::Known { sampled } => sampled,
            }
        } else {
            true
        }
    }

    /// Whether a span or event is let through. `draw` is the outcome of the
    /// sampling draw, which counts for root spans only.
    pub fn enabled(&self, is_span: bool, parent: ParentSpan, draw: bool) -> (on: bool)
        ensures
            on == Self::passes(is_span, parent, draw),
    {
        if is_span {
            match parent {
                ParentSpan::Root => draw,
                ParentSpan::Unknown => false,
                ParentSpan::Known { sampled } => sampled,
            }
        } else {
            true
        }
    }
}

/// The name under which the agent endpoint of the tracing exporter stands for
/// "use the exporter's own default".
pub fn default_agent_endpoint() -> (name: &'static str)
    ensures
        name@ == "default"@,
{
    "default"
}

} // verus!
