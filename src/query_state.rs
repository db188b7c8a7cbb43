use vstd::prelude::*;

verus! {

/// The progress of a watched query, as its watchers see it.
#[derive(Clone, Debug)]
pub enum EmailQueryState {
    NotStarted,
    InProgress,
    Error { details: String },
    UpToDate,
}

impl EmailQueryState {
    /// The name of the state, as serialised for clients.
    pub fn tag(&self) -> (r: &'static str) {
        match self {
            EmailQueryState::NotStarted => "NotStarted",
            EmailQueryState::InProgress => "InProgress",
            EmailQueryState::Error { .. } => "Error",
            EmailQueryState::UpToDate => "UpToDate",
        }
    }
}

/// One published state may follow another: a sync starts from rest and ends
/// up to date or in error.
pub open spec fn query_step(prev: EmailQueryState, next: EmailQueryState) -> bool {
    match prev {
        EmailQueryState::InProgress => next is UpToDate || next is Error,
        _ => next is InProgress,
    }
}

/// The published states are a prefix of a word of
/// `NotStarted (InProgress (UpToDate | Error))*`.
pub open spec fn query_history_ok(h: Seq<EmailQueryState>) -> bool {
    &&& h.len() >= 1
    &&& h[0] is NotStarted
    &&& forall|i: int| 1 <= i < h.len() ==> query_step(h[i - 1], #[trigger] h[i])
}

/// The number of completed syncs is the number of published states after
/// the first, halved; the odd ones start a sync and the even ones end it.
pub proof fn lemma_query_history_shape(h: Seq<EmailQueryState>)
    requires
        query_history_ok(h),
    ensures
        forall|i: int| 1 <= i < h.len() ==> (#[trigger] h[i] is InProgress <==> i % 2 == 1),
    decreases h.len(),
{
    if h.len() > 1 {
        let p = h.drop_last();
        assert forall|i: int| 1 <= i < p.len() implies query_step(p[i - 1], #[trigger] p[i]) by {
            assert(p[i] == h[i] && p[i - 1] == h[i - 1]);
        }
        lemma_query_history_shape(p);
        let n = h.len() - 1;
        assert forall|i: int| 1 <= i < h.len() implies (#[trigger] h[i] is InProgress <==> i % 2 == 1) by {
            if i < n {
                assert(p[i] == h[i]);
            } else {
                assert(query_step(h[n - 1], h[n]));
                if n - 1 >= 1 {
                    assert(p[n - 1] == h[n - 1]);
                }
            }
        }
    }
}

pub proof fn lemma_query_history_push(h: Seq<EmailQueryState>, s: EmailQueryState)
    requires
        query_history_ok(h),
        query_step(h.last(), s),
    ensures
        query_history_ok(h.push(s)),
        h.push(s).last() == s,
{
    let g = h.push(s);
    assert forall|i: int| 1 <= i < g.len() implies query_step(g[i - 1], #[trigger] g[i]) by {
        if i < h.len() {
            assert(g[i] == h[i] && g[i - 1] == h[i - 1]);
        }
    }
}

} // verus!
