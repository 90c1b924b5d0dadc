//! Entry policies: how extracted segments are grouped into output chunks.
//!
//! `parse_entry_strategy` maps each `EntryStrategy` to a policy, whose
//! `get_entry_for_sym` gives `Some(key)` to group a segment with every other
//! segment of the same key, or `None` to give it a chunk of its own.

use vstd::prelude::*;

use crate::text::{concat3, str_eq};
use crate::types::{CtxKind, EntryStrategy, SegmentData};

verus! {

/// The chunk key shared by all segments under the inline, hoist and single policies.
pub open spec fn entry_segments_key() -> Seq<char> {
    "entry_segments"@
}

/// The chunk key of a segment grouped under its root component: `{origin}_entry_{root}`.
pub open spec fn component_entry_key(origin: Seq<char>, root: Seq<char>) -> Seq<char> {
    origin + "_entry_"@ + root
}

/// A segment that the smart policy gives a chunk of its own whatever its context:
/// it captures nothing and is an event handler (or an `event$` function).
pub open spec fn is_pure_handler(segment: SegmentData) -> bool {
    segment.scoped_idents@.len() == 0 && (segment.ctx_kind != CtxKind::Function
        || segment.ctx_name@ == "event$"@)
}

/// A policy that decides the output chunk of each extracted segment.
#[derive(Debug, Clone, Copy, PartialEq, Eq, Structural)]
pub enum EntryPolicy {
    /// Inline and hoist: every segment shares the "entry_segments" chunk.
    InlineStrategy,
    /// Single: every segment shares the "entry_segments" chunk.
    SingleStrategy,
    /// Segment and hook: every segment gets its own chunk.
    PerSegmentStrategy,
    /// Component: group by root component, "entry_segments" for top-level segments.
    PerComponentStrategy,
    /// Smart: pure handlers and top-level segments alone, the rest per component.
    SmartStrategy,
}

impl EntryPolicy {
    /// The chunk key that this policy gives a segment in `context`
    /// (the stack of enclosing names, outermost first).
    pub open spec fn entry_for_sym(self, context: Seq<String>, segment: SegmentData) -> Option<
        Seq<char>,
    > {
        match self {
            EntryPolicy::InlineStrategy => Some(entry_segments_key()),
            EntryPolicy::SingleStrategy => Some(entry_segments_key()),
            EntryPolicy::PerSegmentStrategy => None,
            EntryPolicy::PerComponentStrategy => if context.len() == 0 {
                Some(entry_segments_key())
            } else {
                Some(component_entry_key(segment.origin@, context[0]@))
            },
            EntryPolicy::SmartStrategy => if is_pure_handler(segment) || context.len() == 0 {
                None
            } else {
                Some(component_entry_key(segment.origin@, context[0]@))
            },
        }
    }

    /// The output chunk key of `segment` under this policy.
    pub fn get_entry_for_sym(&self, context: &[String], segment: &SegmentData) -> (r: Option<
        String,
    >)
        ensures
            r matches Some(s) ==> self.entry_for_sym(context@, *segment) == Some(s@),
            r is None ==> self.entry_for_sym(context@, *segment) is None,
    {
        match self {
            EntryPolicy::InlineStrategy | EntryPolicy::SingleStrategy => Some(
                String::from_str("entry_segments"),
            ),
            EntryPolicy::PerSegmentStrategy => None,
            EntryPolicy::PerComponentStrategy => {
                if context.len() == 0 {
                    Some(String::from_str("entry_segments"))
                } else {
                    Some(concat3(segment.origin.as_str(), "_entry_", context[0].as_str()))
                }
            },
            EntryPolicy::SmartStrategy => {
                let pure = segment.scoped_idents.len() == 0 && (segment.ctx_kind
                    != CtxKind::Function || str_eq(segment.ctx_name.as_str(), "event$"));
                if pure || context.len() == 0 {
                    None
                } else {
                    Some(concat3(segment.origin.as_str(), "_entry_", context[0].as_str()))
                }
            },
        }
    }
}

/// The policy of an entry strategy.
pub open spec fn policy_of(strategy: EntryStrategy) -> EntryPolicy {
    match strategy {
        EntryStrategy::Inline | EntryStrategy::Hoist => EntryPolicy::InlineStrategy,
        EntryStrategy::Single => EntryPolicy::SingleStrategy,
        EntryStrategy::Hook | EntryStrategy::Segment => EntryPolicy::PerSegmentStrategy,
        EntryStrategy::Component => EntryPolicy::PerComponentStrategy,
        EntryStrategy::Smart => EntryPolicy::SmartStrategy,
    }
}

/// Map an `EntryStrategy` to its policy.
pub fn parse_entry_strategy(strategy: &EntryStrategy) -> (p: EntryPolicy)
    ensures
        p == policy_of(*strategy),
{
    match strategy {
        EntryStrategy::Inline | EntryStrategy::Hoist => EntryPolicy::InlineStrategy,
        EntryStrategy::Single => EntryPolicy::SingleStrategy,
        EntryStrategy::Hook | EntryStrategy::Segment => EntryPolicy::PerSegmentStrategy,
        EntryStrategy::Component => EntryPolicy::PerComponentStrategy,
        EntryStrategy::Smart => EntryPolicy::SmartStrategy,
    }
}

/// Whether a strategy keeps segments inside the root module: true only for
/// `Inline` and `Hoist` (`Single` shares their chunk key but is not inline).
pub fn is_inline(strategy: &EntryStrategy) -> (r: bool)
    ensures
        r == (*strategy == EntryStrategy::Inline || *strategy == EntryStrategy::Hoist),
{
    match strategy {
        EntryStrategy::Inline | EntryStrategy::Hoist => true,
        _ => false,
    }
}

/// Law: the inline strategies, and only they, share the "entry_segments" chunk
/// for every segment whatever its context; `Single` shares it too without being inline.
pub proof fn lemma_inline_strategies_share_one_chunk(
    strategy: EntryStrategy,
    context: Seq<String>,
    segment: SegmentData,
)
    requires
        strategy == EntryStrategy::Inline || strategy == EntryStrategy::Hoist || strategy
            == EntryStrategy::Single,
    ensures
        policy_of(strategy).entry_for_sym(context, segment) == Some(entry_segments_key()),
{
}

/// Law: under the segment and hook strategies every segment is an entry of its own.
pub proof fn lemma_per_segment_strategies_never_group(
    strategy: EntryStrategy,
    context: Seq<String>,
    segment: SegmentData,
)
    requires
        strategy == EntryStrategy::Segment || strategy == EntryStrategy::Hook,
    ensures
        policy_of(strategy).entry_for_sym(context, segment) is None,
{
}

/// Law: the smart policy groups a segment exactly as the component policy does,
/// except that pure handlers and top-level segments get chunks of their own.
pub proof fn lemma_smart_refines_component(context: Seq<String>, segment: SegmentData)
    ensures
        EntryPolicy::SmartStrategy.entry_for_sym(context, segment) == if is_pure_handler(segment)
            || context.len() == 0 {
            None
        } else {
            EntryPolicy::PerComponentStrategy.entry_for_sym(context, segment)
        },
{
}

/// Law: under the smart policy, a segment of kind `Function` other than an
/// `event$` function, inside a component context, is grouped with its root
/// component (`{origin}_entry_{root}`), whether or not it captures anything.
pub proof fn lemma_smart_groups_functions_with_component(context: Seq<String>, segment: SegmentData)
    requires
        segment.ctx_kind == CtxKind::Function,
        segment.ctx_name@ != "event$"@,
        context.len() > 0,
    ensures
        EntryPolicy::SmartStrategy.entry_for_sym(context, segment) == Some(segment.origin@ + "_entry_"@ + context[0]@),
        EntryPolicy::SmartStrategy.entry_for_sym(context, segment)
            == EntryPolicy::PerComponentStrategy.entry_for_sym(context, segment),
{
}

/// Law: under the smart policy, an event handler that captures nothing gets a
/// chunk of its own, wherever it stands; one that captures is grouped with its
/// root component.
pub proof fn lemma_smart_isolates_capture_free_handlers(context: Seq<String>, segment: SegmentData)
    requires
        segment.ctx_kind == CtxKind::EventHandler,
    ensures
        segment.scoped_idents@.len() == 0 ==> EntryPolicy::SmartStrategy.entry_for_sym(context, segment) is None,
        segment.scoped_idents@.len() > 0 && context.len() > 0 ==> EntryPolicy::SmartStrategy.entry_for_sym(
            context,
            segment,
        ) == Some(segment.origin@ + "_entry_"@ + context[0]@),
{
}

} // verus!
