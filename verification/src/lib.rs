//! Layered configuration resolution: a strategy holds an ordered list of
//! value sources and applies them in turn to a typed configuration item,
//! recording an attempt trail of what was tried and why each source
//! succeeded or failed.

pub mod cli;
pub mod command_line;
pub mod environment;
pub mod environment_variable;
pub mod file;
pub mod item;
pub mod text;
pub mod value;

use vstd::prelude::*;

use crate::environment::{Environment, env_accepted, env_reason};
use crate::file::{File, FileFailureKind, file_accepted, file_reason};
use crate::item::{ConfigurationItem, with_value};
use crate::value::{AcceptError, RawValue, coerce_spec};

verus! {

/// Why one source could not supply a value for one item. Every failure is a
/// typed reason; none of them aborts resolution.
#[derive(Debug, PartialEq)]
pub enum RejectReason {
    /// The derived key was not found in this source; the normal, expected
    /// outcome that sends the strategy to the next source.
    SourceUnavailable { key: String },
    /// The key was found but the item refused the candidate value.
    ValueRejected { key: String, value: RawValue, reason: AcceptError },
    /// The key was found but its content is not valid text.
    ValueNotUnicode { key: String },
    /// The derived key is structurally invalid in this source's domain.
    InvalidKeyName { key: String },
    /// An adapter-level input failure; treated as a rejection.
    IOError { kind: FileFailureKind },
}

/// The mathematical shadow of a `RejectReason`: strings as character
/// sequences, so contracts can speak of derived keys exactly.
pub enum RejectView {
    SourceUnavailable { key: Seq<char> },
    ValueRejected { key: Seq<char>, value: RawValue, reason: AcceptError },
    ValueNotUnicode { key: Seq<char> },
    InvalidKeyName { key: Seq<char> },
    IOError { kind: FileFailureKind },
}

impl View for RejectReason {
    type V = RejectView;

    open spec fn view(&self) -> RejectView {
        match self {
            RejectReason::SourceUnavailable { key } => RejectView::SourceUnavailable {
                key: key@,
            },
            RejectReason::ValueRejected { key, value, reason } => RejectView::ValueRejected {
                key: key@,
                value: *value,
                reason: *reason,
            },
            RejectReason::ValueNotUnicode { key } => RejectView::ValueNotUnicode { key: key@ },
            RejectReason::InvalidKeyName { key } => RejectView::InvalidKeyName { key: key@ },
            RejectReason::IOError { kind } => RejectView::IOError { kind: *kind },
        }
    }
}

/// The view of an optional reason, `None` kept as `None`.
pub open spec fn reason_view(r: Option<RejectReason>) -> Option<RejectView> {
    match r {
        Some(x) => Some(x@),
        None => None,
    }
}

/// A record of one source having been tried against an item: `error` is
/// `None` when the source supplied an accepted value, `Some(reason)` when it
/// could not.
#[derive(Debug, PartialEq)]
pub struct Attempt {
    pub source: SourceLabel,
    pub error: Option<RejectReason>,
}

/// Which kind of source an attempt speaks of.
#[derive(Debug, Clone, Copy, PartialEq, Eq, Structural)]
pub enum SourceLabel {
    Environment,
    File,
    Hardcoded,
}

impl Attempt {
    pub fn new(source: SourceLabel, error: Option<RejectReason>) -> (r: Self)
        ensures
            r.source == source,
            r.error == error,
    {
        Attempt { source, error }
    }

    /// Whether this attempt supplied an accepted value.
    pub fn is_ok(&self) -> (r: bool)
        ensures
            r == (self.error is None),
    {
        self.error.is_none()
    }
}

/// A compiled-in default: a source that always has this one candidate value.
#[derive(Debug)]
pub struct Hardcoded {
    pub value: RawValue,
}

/// Why the hardcoded source rejects `item`, or `None` when it accepts: its
/// candidate is always present, so only coercion can refuse it.
pub open spec fn hardcoded_reason(h: Hardcoded, item: ConfigurationItem) -> Option<RejectView> {
    match coerce_spec(item.kind, h.value) {
        Ok(_) => None,
        Err(e) => Some(
            RejectView::ValueRejected { key: item.name@, value: h.value, reason: e },
        ),
    }
}

/// The value the hardcoded source supplies when it accepts.
pub open spec fn hardcoded_accepted(h: Hardcoded, item: ConfigurationItem) -> RawValue {
    coerce_spec(item.kind, h.value)->Ok_0
}

impl Hardcoded {
    pub fn new(value: RawValue) -> (r: Self)
        ensures
            r.value == value,
    {
        Hardcoded { value }
    }

    /// Offer the compiled-in candidate to the item.
    pub fn try_get(&self, ci: &mut ConfigurationItem) -> (r: Option<RejectReason>)
        ensures
            reason_view(r) == hardcoded_reason(*self, *old(ci)),
            r is None ==> *final(ci) == with_value(*old(ci), hardcoded_accepted(*self, *old(ci))),
            r is Some ==> *final(ci) == *old(ci),
    {
        let candidate = self.value.clone();
        match ci.try_value(candidate) {
            None => None,
            Some(e) => Some(
                RejectReason::ValueRejected {
                    key: ci.name.clone(),
                    value: self.value.clone(),
                    reason: e,
                },
            ),
        }
    }
}

/// One provider in a strategy's ordered list: the closed set of places a
/// value can come from.
#[derive(Debug)]
pub enum ConfigurationValueSource {
    Environment(Environment),
    File(File),
    Hardcoded(Hardcoded),
}

pub open spec fn label_of(s: ConfigurationValueSource) -> SourceLabel {
    match s {
        ConfigurationValueSource::Environment(_) => SourceLabel::Environment,
        ConfigurationValueSource::File(_) => SourceLabel::File,
        ConfigurationValueSource::Hardcoded(_) => SourceLabel::Hardcoded,
    }
}

/// Why `s` rejects `item`, or `None` when it accepts.
pub open spec fn source_reason(s: ConfigurationValueSource, item: ConfigurationItem) -> Option<
    RejectView,
> {
    match s {
        ConfigurationValueSource::Environment(e) => env_reason(e, item),
        ConfigurationValueSource::File(f) => file_reason(f, item),
        ConfigurationValueSource::Hardcoded(h) => hardcoded_reason(h, item),
    }
}

/// The value `s` supplies for `item` when it accepts.
pub open spec fn source_accepted(s: ConfigurationValueSource, item: ConfigurationItem) -> RawValue {
    match s {
        ConfigurationValueSource::Environment(e) => env_accepted(e, item),
        ConfigurationValueSource::File(f) => file_accepted(f, item),
        ConfigurationValueSource::Hardcoded(h) => hardcoded_accepted(h, item),
    }
}

/// Whether `s` accepts `item`: it can supply a value the item coerces.
pub open spec fn accepts(s: ConfigurationValueSource, item: ConfigurationItem) -> bool {
    source_reason(s, item) is None
}

/// The least index of a source that accepts `item`, if any. Because a
/// rejecting source leaves the item untouched, acceptance of each source is
/// well-defined against the item as it entered the resolution pass.
pub open spec fn first_accept(
    srcs: Seq<ConfigurationValueSource>,
    item: ConfigurationItem,
) -> Option<int>
    decreases srcs.len(),
{
    if srcs.len() == 0 {
        None
    } else if accepts(srcs[0], item) {
        Some(0)
    } else {
        match first_accept(srcs.drop_first(), item) {
            Some(k) => Some(k + 1),
            None => None,
        }
    }
}

proof fn lemma_first_accept_at(
    srcs: Seq<ConfigurationValueSource>,
    item: ConfigurationItem,
    k: int,
)
    requires
        0 <= k < srcs.len(),
        forall|j: int| 0 <= j < k ==> !accepts(#[trigger] srcs[j], item),
        accepts(srcs[k], item),
    ensures
        first_accept(srcs, item) == Some(k),
    decreases k,
{
    if k == 0 {
    } else {
        assert(!accepts(srcs[0], item));
        let t = srcs.drop_first();
        assert(forall|j: int| 0 <= j < k - 1 ==> #[trigger] t[j] == srcs[j + 1]);
        lemma_first_accept_at(t, item, k - 1);
    }
}

proof fn lemma_first_accept_none(srcs: Seq<ConfigurationValueSource>, item: ConfigurationItem)
    requires
        forall|j: int| 0 <= j < srcs.len() ==> !accepts(#[trigger] srcs[j], item),
    ensures
        first_accept(srcs, item) is None,
    decreases srcs.len(),
{
    if srcs.len() > 0 {
        let t = srcs.drop_first();
        assert(forall|j: int| 0 <= j < t.len() ==> #[trigger] t[j] == srcs[j + 1]);
        lemma_first_accept_none(t, item);
    }
}

impl ConfigurationValueSource {
    /// Which kind of source this is.
    pub fn label(&self) -> (l: SourceLabel)
        ensures
            l == label_of(*self),
    {
        match self {
            ConfigurationValueSource::Environment(_) => SourceLabel::Environment,
            ConfigurationValueSource::File(_) => SourceLabel::File,
            ConfigurationValueSource::Hardcoded(_) => SourceLabel::Hardcoded,
        }
    }

    /// Attempt to retrieve a value for the specified configuration item from
    /// this source: `None` means a value was found and accepted.
    pub fn try_get(&self, ci: &mut ConfigurationItem) -> (r: Option<RejectReason>)
        ensures
            reason_view(r) == source_reason(*self, *old(ci)),
            r is None ==> *final(ci) == with_value(*old(ci), source_accepted(*self, *old(ci))),
            r is Some ==> *final(ci) == *old(ci),
    {
        match self {
            ConfigurationValueSource::Environment(e) => e.try_get(ci),
            ConfigurationValueSource::File(f) => f.try_get(ci),
            ConfigurationValueSource::Hardcoded(h) => h.try_get(ci),
        }
    }
}

/// The ordered trail of attempts made for one item during one resolution
/// pass: complete through either the first accepting entry or the end of the
/// source list.
#[derive(Debug)]
pub struct Attempts {
    pub item_name: String,
    pub attempts: Vec<Attempt>,
}

impl Attempts {
    pub fn new(item_name: String, attempts: Vec<Attempt>) -> (r: Self)
        ensures
            r.item_name == item_name,
            r.attempts == attempts,
    {
        Attempts { item_name, attempts }
    }

    pub fn push(&mut self, a: Attempt)
        ensures
            final(self).item_name == old(self).item_name,
            final(self).attempts@ == old(self).attempts@.push(a),
    {
        self.attempts.push(a);
    }
}

/// An ordered, immutable list of value sources, constructed once and reused
/// across many items; source order is the only priority signal.
pub struct ConfigurationStrategy {
    pub sources: Vec<ConfigurationValueSource>,
}

impl ConfigurationStrategy {
    pub fn new(sources: Vec<ConfigurationValueSource>) -> (r: Self)
        ensures
            r.sources == sources,
    {
        ConfigurationStrategy { sources }
    }

    /// Try to get a value for the specified configuration item using this
    /// strategy: each source is tried in order against the one exclusively
    /// held item, and the pass stops at the first acceptance.
    ///
    /// The contract carries the trail laws: when source `k` is the first to
    /// accept, the trail has exactly `k + 1` entries, the first `k` rejecting
    /// and the last accepting; when no source accepts, the trail covers every
    /// source and the item is left exactly as it came in.
    pub fn try_get(&self, ci: &mut ConfigurationItem) -> (r: Attempts)
        ensures
            r.item_name@ == old(ci).name@,
            forall|j: int|
                0 <= j < r.attempts@.len() ==> (#[trigger] r.attempts@[j]).source == label_of(
                    self.sources@[j],
                ),
            forall|j: int|
                0 <= j < r.attempts@.len() ==> reason_view((#[trigger] r.attempts@[j]).error)
                    == source_reason(self.sources@[j], *old(ci)),
            match first_accept(self.sources@, *old(ci)) {
                Some(k) => r.attempts@.len() == k + 1 && (forall|j: int|
                    0 <= j < k ==> (#[trigger] r.attempts@[j]).error is Some) && r.attempts@[k].error
                    is None && *final(ci) == with_value(
                    *old(ci),
                    source_accepted(self.sources@[k], *old(ci)),
                ),
                None => r.attempts@.len() == self.sources@.len() && (forall|j: int|
                    0 <= j < r.attempts@.len() ==> (#[trigger] r.attempts@[j]).error is Some)
                    && *final(ci) == *old(ci),
            },
    {
        let ghost item0 = *ci;
        let mut attempts: Vec<Attempt> = Vec::new();
        let n = self.sources.len();
        let mut i: usize = 0;
        let mut accepted = false;
        while i < n && !accepted
            invariant
                i <= n,
                n == self.sources@.len(),
                attempts@.len() == i,
                forall|j: int|
                    0 <= j < i ==> (#[trigger] attempts@[j]).source == label_of(self.sources@[j]),
                forall|j: int|
                    0 <= j < i ==> reason_view((#[trigger] attempts@[j]).error) == source_reason(
                        self.sources@[j],
                        item0,
                    ),
                !accepted ==> *ci == item0,
                !accepted ==> forall|j: int| 0 <= j < i ==> !accepts(#[trigger] self.sources@[j], item0),
                accepted ==> i >= 1 && accepts(self.sources@[i - 1], item0) && (forall|j: int|
                    0 <= j < i - 1 ==> !accepts(#[trigger] self.sources@[j], item0)) && *ci
                    == with_value(item0, source_accepted(self.sources@[i - 1], item0)),
            decreases n - i,
        {
            let src = &self.sources[i];
            let res = src.try_get(ci);
            let ok = res.is_none();
            attempts.push(Attempt { source: src.label(), error: res });
            if ok {
                accepted = true;
            }
            i += 1;
        }
        proof {
            if accepted {
                lemma_first_accept_at(self.sources@, item0, i - 1);
            } else {
                lemma_first_accept_none(self.sources@, item0);
            }
        }
        Attempts { item_name: ci.name.clone(), attempts }
    }
}

} // verus!
