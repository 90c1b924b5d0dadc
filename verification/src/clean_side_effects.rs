//! Post-transform tree shaking of top-level call and `new` expressions.
//!
//! Before the transform, the start offsets of every top-level expression
//! statement that is a call or a `new` expression are recorded. After the
//! transform, top-level call and `new` statements whose start was not recorded
//! (that is, those the transform introduced) are dropped.

use vstd::prelude::*;

verus! {

/// What the tree shaker sees of a top-level statement of a module.
#[derive(Debug, Clone, Copy, PartialEq, Eq, Structural)]
pub enum TopStatement {
    /// An expression statement whose expression is a call, starting at `start`.
    Call { start: u32 },
    /// An expression statement whose expression is a `new` expression, starting at `start`.
    New { start: u32 },
    /// Any other statement.
    Other,
}

/// The start offset of a call or `new` statement.
pub open spec fn call_start(s: TopStatement) -> Option<u32> {
    match s {
        TopStatement::Call { start } => Some(start),
        TopStatement::New { start } => Some(start),
        TopStatement::Other => None,
    }
}

/// The starts of all call and `new` statements of a module body.
pub open spec fn marked_starts(body: Seq<TopStatement>) -> Set<u32> {
    Set::new(|x: u32| exists|i: int| 0 <= i < body.len() && call_start(#[trigger] body[i]) == Some(x))
}

/// Whether the cleaner keeps a statement, given the recorded starts.
pub open spec fn kept(s: TopStatement, spans: Set<u32>) -> bool {
    match call_start(s) {
        Some(x) => spans.contains(x),
        None => true,
    }
}

/// The statements that the cleaner keeps, in order.
pub open spec fn clean_spec(body: Seq<TopStatement>, spans: Set<u32>) -> Seq<TopStatement> {
    body.filter(|s: TopStatement| kept(s, spans))
}

/// The recorder and cleaner, sharing one set of recorded starts.
pub struct Treeshaker {
    spans: Vec<u32>,
    did_drop: bool,
}

impl Treeshaker {
    /// The recorded starts.
    pub closed spec fn spans(&self) -> Set<u32> {
        self.spans@.to_set()
    }

    /// Whether the cleaner dropped at least one statement.
    pub closed spec fn dropped(&self) -> bool {
        self.did_drop
    }

    /// Whether the cleaner dropped at least one statement.
    pub fn did_drop(&self) -> (r: bool)
        ensures
            r == self.dropped(),
    {
        self.did_drop
    }

    /// A tree shaker with nothing recorded.
    pub fn new() -> (r: Self)
        ensures
            r.spans() == Set::<u32>::empty(),
            !r.dropped(),
    {
        let r = Treeshaker { spans: Vec::new(), did_drop: false };
        assert(r.spans@.to_set() =~= Set::<u32>::empty());
        r
    }

    fn contains(&self, x: u32) -> (r: bool)
        ensures
            r == self.spans().contains(x),
    {
        let mut i: usize = 0;
        while i < self.spans.len()
            invariant
                i <= self.spans@.len(),
                forall|j: int| 0 <= j < i ==> self.spans@[j] != x,
            decreases self.spans@.len() - i,
        {
            if self.spans[i] == x {
                assert(self.spans@.contains(x));
                return true;
            }
            i += 1;
        }
        false
    }

    /// Record the start of every top-level call and `new` statement of `body`.
    pub fn mark_module(&mut self, body: &[TopStatement])
        ensures
            final(self).spans() == old(self).spans().union(marked_starts(body@)),
            final(self).dropped() == old(self).dropped(),
    {
        let mut i: usize = 0;
        while i < body.len()
            invariant
                i <= body@.len(),
                self.did_drop == old(self).did_drop,
                self.spans() == old(self).spans().union(marked_starts(body@.take(i as int))),
            decreases body@.len() - i,
        {
            let ghost before = self.spans@;
            proof {
                lemma_marked_starts_step(body@, i as int);
            }
            match body[i] {
                TopStatement::Call { start } => {
                    self.spans.push(start);
                    proof {
                        lemma_push_to_set(before, start);
                    }
                },
                TopStatement::New { start } => {
                    self.spans.push(start);
                    proof {
                        lemma_push_to_set(before, start);
                    }
                },
                TopStatement::Other => {},
            }
            assert(self.spans() =~= old(self).spans().union(marked_starts(body@.take(i + 1))));
            i += 1;
        }
        assert(body@.take(body@.len() as int) =~= body@);
    }

    /// Drop every top-level call and `new` statement whose start was not recorded.
    pub fn clean_module(&mut self, body: &mut Vec<TopStatement>)
        ensures
            final(body)@ == clean_spec(old(body)@, old(self).spans()),
            final(self).spans() == old(self).spans(),
            final(self).dropped() == (old(self).dropped() || final(body)@.len() < old(body)@.len()),
    {
        let ghost spans = self.spans();
        let mut keep: Vec<TopStatement> = Vec::new();
        let mut i: usize = 0;
        while i < body.len()
            invariant
                i <= body@.len(),
                spans == self.spans(),
                keep@ == clean_spec(body@.take(i as int), spans),
            decreases body@.len() - i,
        {
            let s = body[i];
            let k = match s {
                TopStatement::Call { start } => self.contains(start),
                TopStatement::New { start } => self.contains(start),
                TopStatement::Other => true,
            };
            proof {
                let t = body@.take(i + 1);
                assert(t.drop_last() =~= body@.take(i as int));
                assert(t.last() == s);
                reveal_with_fuel(Seq::filter, 1);
            }
            if k {
                keep.push(s);
            }
            i += 1;
        }
        assert(body@.take(body@.len() as int) =~= body@);
        proof {
            broadcast use vstd::seq_lib::group_filter_ensures;
        }
        if keep.len() < body.len() {
            self.did_drop = true;
        }
        *body = keep;
    }
}

proof fn lemma_push_to_set(s: Seq<u32>, x: u32)
    ensures
        s.push(x).to_set() == s.to_set().insert(x),
{
    assert forall|y: u32| #[trigger] s.push(x).to_set().contains(y) <==> s.to_set().insert(x).contains(y) by {
        if s.push(x).contains(y) {
            let k = choose|k: int| 0 <= k < s.push(x).len() && s.push(x)[k] == y;
            if k < s.len() {
                assert(s[k] == y);
            }
        }
        if s.contains(y) {
            let k = choose|k: int| 0 <= k < s.len() && s[k] == y;
            assert(s.push(x)[k] == y);
        }
        if y == x {
            assert(s.push(x)[s.len() as int] == x);
        }
    }
    assert(s.push(x).to_set() =~= s.to_set().insert(x));
}

proof fn lemma_marked_starts_step(body: Seq<TopStatement>, i: int)
    requires
        0 <= i < body.len(),
    ensures
        marked_starts(body.take(i + 1)) == match call_start(body[i]) {
            Some(x) => marked_starts(body.take(i)).insert(x),
            None => marked_starts(body.take(i)),
        },
{
    let t = body.take(i + 1);
    let p = body.take(i);
    assert forall|x: u32| #[trigger] marked_starts(t).contains(x) <==> (match call_start(body[i]) {
        Some(y) => marked_starts(p).insert(y),
        None => marked_starts(p),
    }).contains(x) by {
        if marked_starts(t).contains(x) {
            let k = choose|k: int| 0 <= k < t.len() && call_start(#[trigger] t[k]) == Some(x);
            if k < i {
                assert(p[k] == t[k]);
                assert(marked_starts(p).contains(x));
            } else {
                assert(t[k] == body[i]);
            }
        }
        if marked_starts(p).contains(x) {
            let k = choose|k: int| 0 <= k < p.len() && call_start(#[trigger] p[k]) == Some(x);
            assert(t[k] == p[k]);
            assert(marked_starts(t).contains(x));
        }
        if call_start(body[i]) == Some(x) {
            assert(t[i] == body[i]);
            assert(marked_starts(t).contains(x));
        }
    }
    assert(marked_starts(t) =~= match call_start(body[i]) {
        Some(x) => marked_starts(p).insert(x),
        None => marked_starts(p),
    });
}

/// Law: cleaning a body after recording that same body drops nothing.
pub proof fn lemma_clean_after_mark_keeps_all(body: Seq<TopStatement>, spans: Set<u32>)
    ensures
        clean_spec(body, spans.union(marked_starts(body))) == body,
{
    let all = spans.union(marked_starts(body));
    assert forall|i: int| 0 <= i < body.len() implies kept(#[trigger] body[i], all) by {
        if let Some(x) = call_start(body[i]) {
            assert(marked_starts(body).contains(x));
        }
    }
    lemma_filter_all(body, all);
}

proof fn lemma_filter_all(body: Seq<TopStatement>, spans: Set<u32>)
    requires
        forall|i: int| 0 <= i < body.len() ==> kept(#[trigger] body[i], spans),
    ensures
        clean_spec(body, spans) == body,
    decreases body.len(),
{
    reveal_with_fuel(Seq::filter, 1);
    if body.len() > 0 {
        assert forall|i: int| 0 <= i < body.drop_last().len() implies kept(
            #[trigger] body.drop_last()[i],
            spans,
        ) by {
            assert(body.drop_last()[i] == body[i]);
        }
        lemma_filter_all(body.drop_last(), spans);
        assert(kept(body.last(), spans));
        assert(body.drop_last().push(body.last()) =~= body);
    }
}

/// Law: statements other than calls and `new` expressions are never dropped.
pub proof fn lemma_clean_keeps_other_statements(body: Seq<TopStatement>, spans: Set<u32>, i: int)
    requires
        0 <= i < body.len(),
        body[i] == TopStatement::Other,
    ensures
        clean_spec(body, spans).contains(TopStatement::Other),
{
    broadcast use vstd::seq_lib::group_filter_ensures;
    assert(kept(body[i], spans));
}

} // verus!
