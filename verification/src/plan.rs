//! Plans: steps that are carried out one after the other, where what became of
//! a step decides what comes next.

use vstd::prelude::*;

verus! {

/// Where a plan goes on behind a step.
#[derive(Clone, Copy, PartialEq, Eq, Structural, Debug)]
pub enum Flow {
    /// At the next step.
    Next,
    /// Behind as many of the next steps.
    Skip(usize),
    /// Nowhere.
    Abort,
}

/// What follows on the success and on the failure of a step.
#[derive(Clone, Copy, PartialEq, Eq, Structural, Debug)]
pub struct Guide {
    pub on_success: Flow,
    pub on_failure: Flow,
}

/// A step that has to succeed.
pub open spec fn required() -> Guide {
    Guide { on_success: Flow::Next, on_failure: Flow::Abort }
}

/// A step whose failure is passed over.
pub open spec fn optional() -> Guide {
    Guide { on_success: Flow::Next, on_failure: Flow::Next }
}

/// A step that makes the next `n` steps needless where it succeeds.
pub open spec fn spares(n: usize) -> Guide {
    Guide { on_success: Flow::Skip(n), on_failure: Flow::Next }
}

/// Which step follows the step `at`, if the plan goes on.
pub open spec fn following(g: Guide, at: int, succeeded: bool) -> Option<int> {
    match if succeeded {
        g.on_success
    } else {
        g.on_failure
    } {
        Flow::Next => Some(at + 1),
        Flow::Skip(n) => Some(at + 1 + n),
        Flow::Abort => None,
    }
}

/// Decides which step follows the step `at`; past the end of every plan there
/// is none, so a number that does not fit stands for the end.
pub fn next_step(g: Guide, at: usize, succeeded: bool) -> (r: Option<usize>)
    requires
        at < usize::MAX,
    ensures
        match following(g, at as int, succeeded) {
            None => r is None,
            Some(k) => r == Some(
                if k <= usize::MAX {
                    k as usize
                } else {
                    usize::MAX
                },
            ),
        },
{
    let flow = if succeeded {
        g.on_success
    } else {
        g.on_failure
    };
    match flow {
        Flow::Next => Some(at + 1),
        Flow::Skip(n) => match (at + 1).checked_add(n) {
            Some(k) => Some(k),
            None => Some(usize::MAX),
        },
        Flow::Abort => None,
    }
}

/// Whether a record of steps, each with its success, is that of a plan which
/// was at the step `from` and then came to its end.
pub open spec fn is_run(guides: Seq<Guide>, from: int, record: Seq<(int, bool)>) -> bool
    decreases record.len(),
{
    if record.len() == 0 {
        from >= guides.len()
    } else {
        let (at, succeeded) = record[0];
        &&& from == at
        &&& 0 <= at < guides.len()
        &&& following(guides[at], at, succeeded) matches Some(next) && is_run(
            guides,
            next,
            record.drop_first(),
        )
    }
}

/// Whether an earlier step may pass over the step `i`.
pub open spec fn may_be_spared(guides: Seq<Guide>, i: int) -> bool {
    exists|j: int|
        0 <= j < i && (match (#[trigger] guides[j]).on_success {
            Flow::Skip(n) => i <= j + n,
            _ => false,
        } || match guides[j].on_failure {
            Flow::Skip(n) => i <= j + n,
            _ => false,
        })
}

/// A plan that came to its end has carried out every step that no earlier step
/// spares, and where the failure of such a step would have ended it, the step
/// succeeded.
pub proof fn law_finished_plan_did_its_steps(
    guides: Seq<Guide>,
    from: int,
    record: Seq<(int, bool)>,
    i: int,
)
    requires
        0 <= from <= i < guides.len(),
        is_run(guides, from, record),
        !may_be_spared(guides, i),
    ensures
        exists|k: int|
            0 <= k < record.len() && (#[trigger] record[k]).0 == i && (guides[i].on_failure
                == Flow::Abort ==> record[k].1),
    decreases record.len(),
{
    let (at, succeeded) = record[0];
    if at == i {
        assert(record[0].0 == i);
    } else {
        let next = following(guides[at], at, succeeded)->0;
        assert(next <= i);
        let rest = record.drop_first();
        law_finished_plan_did_its_steps(guides, next, rest, i);
        let k = choose|k: int|
            0 <= k < rest.len() && (#[trigger] rest[k]).0 == i && (guides[i].on_failure
                == Flow::Abort ==> rest[k].1);
        assert(record[k + 1] == rest[k]);
    }
}

/// Whether a record of steps is that of a plan which was at the step `from` and
/// then came to the step `to`.
pub open spec fn leads_to(guides: Seq<Guide>, from: int, record: Seq<(int, bool)>, to: int) -> bool
    decreases record.len(),
{
    if record.len() == 0 {
        from == to
    } else {
        let (at, succeeded) = record[0];
        &&& from == at
        &&& 0 <= at < guides.len()
        &&& following(guides[at], at, succeeded) matches Some(next) && leads_to(
            guides,
            next,
            record.drop_first(),
            to,
        )
    }
}

/// A record goes on with the step to which it leads.
pub proof fn lemma_one_step_more(
    guides: Seq<Guide>,
    from: int,
    record: Seq<(int, bool)>,
    to: int,
    succeeded: bool,
)
    requires
        leads_to(guides, from, record, to),
        0 <= to < guides.len(),
        following(guides[to], to, succeeded) is Some,
    ensures
        leads_to(
            guides,
            from,
            record.push((to, succeeded)),
            following(guides[to], to, succeeded)->0,
        ),
    decreases record.len(),
{
    let longer = record.push((to, succeeded));
    if record.len() == 0 {
        assert(longer.drop_first() =~= seq![]);
        let next = following(guides[to], to, succeeded)->0;
        assert(leads_to(guides, next, longer.drop_first(), next));
        assert(longer[0] == (to, succeeded));
    } else {
        let next = following(guides[from], from, record[0].1)->0;
        lemma_one_step_more(guides, next, record.drop_first(), to, succeeded);
        assert(longer.drop_first() =~= record.drop_first().push((to, succeeded)));
        assert(longer[0] == record[0]);
    }
}

/// A record that leads behind the last step is that of a finished plan.
pub proof fn lemma_behind_the_last_step(
    guides: Seq<Guide>,
    from: int,
    record: Seq<(int, bool)>,
    to: int,
)
    requires
        leads_to(guides, from, record, to),
        to >= guides.len(),
    ensures
        is_run(guides, from, record),
    decreases record.len(),
{
    if record.len() > 0 {
        let next = following(guides[from], from, record[0].1)->0;
        lemma_behind_the_last_step(guides, next, record.drop_first(), to);
    }
}

/// What follows on a step: behind one that must succeed the next, and nothing
/// where it fails; behind one that need not, the next; and behind one that spares
/// others, what comes behind those where it succeeds, and they where it fails.
pub proof fn law_what_follows_on_a_step(at: int, n: usize, succeeded: bool)
    ensures
        following(required(), at, true) == Some(at + 1),
        following(required(), at, false) is None,
        following(optional(), at, succeeded) == Some(at + 1),
        following(spares(n), at, true) == Some(at + n + 1),
        following(spares(n), at, false) == Some(at + 1),
{
}

}
