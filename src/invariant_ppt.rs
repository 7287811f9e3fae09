//! Checked invariants, recorded in a log that the caller owns, and contract
//! tests that ask whether given invariants were checked.
use vstd::prelude::*;
use crate::pathvalue::{opt_str, views};

verus! {

/// The descriptions of the invariants that held when they were checked.
pub struct InvariantLog {
    checked: Vec<String>,
}

impl View for InvariantLog {
    type V = Set<Seq<char>>;

    closed spec fn view(&self) -> Set<Seq<char>> {
        views(self.checked@).to_set()
    }
}

impl InvariantLog {
    pub fn new() -> (r: InvariantLog)
        ensures
            r.wf(),
            r@ == Set::<Seq<char>>::empty(),
    {
        let r = InvariantLog { checked: Vec::new() };
        assert(r@ =~= Set::<Seq<char>>::empty());
        r
    }

    /// Whether the invariant `description` was checked and held.
    pub fn is_checked(&self, description: &str) -> (r: bool)
        ensures
            r == self@.contains(description@),
    {
        let d = description.to_owned();
        crate::minimal::contains_string(&self.checked, &d)
    }

    /// The number of distinct invariants recorded.
    pub fn len(&self) -> (r: usize)
        requires
            self.wf(),
        ensures
            r == self@.len(),
    {
        proof {
            lemma_unique_len(views(self.checked@));
        }
        self.checked.len()
    }

    pub closed spec fn wf(&self) -> bool {
        views(self.checked@).no_duplicates()
    }
}

proof fn lemma_unique_len(s: Seq<Seq<char>>)
    requires
        s.no_duplicates(),
    ensures
        s.to_set().len() == s.len(),
{
    s.unique_seq_to_set();
}

/// The text reported when an invariant does not hold.
pub open spec fn violation_message(component: Option<Seq<char>>, description: Seq<char>) -> Seq<char> {
    "CRITICAL INVARIANT VIOLATION ["@ + (match component {
        Some(c) => c,
        None => "General"@,
    }) + "]: "@ + description
}

/// Checks one invariant. When it holds, its description is recorded in `log`;
/// when it does not, `log` is unchanged and the violation is returned.
pub fn assert_invariant(
    log: &mut InvariantLog,
    condition: bool,
    description: &str,
    component: Option<&str>,
) -> (r: Result<(), String>)
    requires
        old(log).wf(),
    ensures
        final(log).wf(),
        condition ==> r is Ok && final(log)@ == old(log)@.insert(description@),
        !condition ==> r is Err && r->Err_0@ == violation_message(opt_str(component), description@)
            && final(log)@ == old(log)@,
{
    if !condition {
        let mut msg = "CRITICAL INVARIANT VIOLATION [".to_owned();
        match component {
            Some(c) => msg.append(c),
            None => msg.append("General"),
        }
        msg.append("]: ");
        msg.append(description);
        return Err(msg);
    }
    let d = description.to_owned();
    let ghost before = views(log.checked@);
    if !crate::minimal::contains_string(&log.checked, &d) {
        log.checked.push(d);
        proof {
            assert(views(log.checked@) =~= before.push(description@));
            assert(views(log.checked@).no_duplicates()) by {
                assert forall|i: int, j: int|
                    0 <= i < views(log.checked@).len() && 0 <= j < views(log.checked@).len() && i != j
                        implies views(log.checked@)[i] != views(log.checked@)[j] by {
                    if i < before.len() && j < before.len() {
                    } else if i == before.len() {
                        assert(before[j] == views(log.checked@)[j]);
                    } else {
                        assert(before[i] == views(log.checked@)[i]);
                    }
                }
            }
            let now = views(log.checked@);
            assert forall|x: Seq<char>| now.contains(x) <==> (before.contains(x) || x == description@) by {
                if now.contains(x) {
                    let k = choose|k: int| 0 <= k < now.len() && now[k] == x;
                    if k < before.len() {
                        assert(before[k] == x);
                    }
                }
                if before.contains(x) {
                    let k = choose|k: int| 0 <= k < before.len() && before[k] == x;
                    assert(now[k] == x);
                }
                if x == description@ {
                    assert(now[before.len() as int] == x);
                }
            }
            assert(now.to_set() =~= before.to_set().insert(description@));
        }
    } else {
        proof {
            assert(before.to_set() =~= before.to_set().insert(description@));
        }
    }
    Ok(())
}

/// A contract test that failed: the invariants that were not checked.
pub struct ContractFailure {
    pub context: String,
    pub missing: Vec<String>,
}

/// The required descriptions that `checked` lacks, in order.
pub open spec fn missing_from(required: Seq<Seq<char>>, checked: Set<Seq<char>>) -> Seq<Seq<char>>
    decreases required.len(),
{
    if required.len() == 0 {
        Seq::empty()
    } else {
        let rest = missing_from(required.drop_last(), checked);
        if checked.contains(required.last()) {
            rest
        } else {
            rest.push(required.last())
        }
    }
}

proof fn lemma_missing_empty(required: Seq<Seq<char>>, checked: Set<Seq<char>>)
    ensures
        missing_from(required, checked).len() == 0 <==> forall|i: int|
            0 <= i < required.len() ==> checked.contains(#[trigger] required[i]),
    decreases required.len(),
{
    if required.len() > 0 {
        lemma_missing_empty(required.drop_last(), checked);
        let r0 = required.drop_last();
        if forall|i: int| 0 <= i < required.len() ==> checked.contains(#[trigger] required[i]) {
            assert forall|i: int| 0 <= i < r0.len() implies checked.contains(#[trigger] r0[i]) by {
                assert(r0[i] == required[i]);
            }
            assert(checked.contains(required[required.len() - 1]));
        }
        if missing_from(required, checked).len() == 0 {
            assert forall|i: int| 0 <= i < required.len() implies checked.contains(#[trigger] required[i]) by {
                if i < r0.len() {
                    assert(r0[i] == required[i]);
                }
            }
        }
    }
}

/// Asks whether each of `required` was checked and held; the ones that were
/// not are returned with `context`.
pub fn contract_test(log: &InvariantLog, context: &str, required: &[&str]) -> (r: Result<
    (),
    ContractFailure,
>)
    ensures
        r is Ok <==> forall|i: int| 0 <= i < required@.len() ==> log@.contains(#[trigger] required@[i]@),
        r is Err ==> r->Err_0.context@ == context@ && views(r->Err_0.missing@) == missing_from(
            required@.map_values(|s: &str| s@),
            log@,
        ),
{
    let ghost req = required@.map_values(|s: &str| s@);
    let mut missing: Vec<String> = Vec::new();
    let mut i: usize = 0;
    while i < required.len()
        invariant
            i <= required@.len(),
            req == required@.map_values(|s: &str| s@),
            views(missing@) == missing_from(req.take(i as int), log@),
        decreases required@.len() - i,
    {
        proof {
            assert(req.take(i + 1).drop_last() =~= req.take(i as int));
            assert(req.take(i + 1).last() == required@[i as int]@);
        }
        if !log.is_checked(required[i]) {
            let ghost prev = missing@;
            missing.push(required[i].to_owned());
            proof {
                assert(views(missing@) =~= views(prev).push(required@[i as int]@));
            }
        }
        i = i + 1;
    }
    proof {
        assert(req.take(required@.len() as int) =~= req);
        lemma_missing_empty(req, log@);
        if missing@.len() == 0 {
            assert forall|i: int| 0 <= i < required@.len() implies log@.contains(#[trigger] required@[i]@) by {
                assert(req[i] == required@[i]@);
            }
        } else {
            assert(!forall|i: int| 0 <= i < req.len() ==> log@.contains(#[trigger] req[i]));
            let i = choose|i: int| 0 <= i < req.len() && !log@.contains(#[trigger] req[i]);
            assert(req[i] == required@[i]@);
        }
    }
    if missing.len() == 0 {
        Ok(())
    } else {
        Err(ContractFailure { context: context.to_owned(), missing })
    }
}

/// Forgets every recorded invariant.
pub fn clear_invariant_log(log: &mut InvariantLog)
    ensures
        final(log).wf(),
        final(log)@ == Set::<Seq<char>>::empty(),
{
    log.checked.clear();
    proof {
        assert(views(log.checked@) =~= Seq::<Seq<char>>::empty());
        assert(log@ =~= Set::<Seq<char>>::empty());
    }
}

} // verus!
