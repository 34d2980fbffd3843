use dice::dependencies::ComputedDependency;
use dice::dice::Dice;
use dice::dice::Evaluation;
use dice::key::DiceKey;
use dice::registry::ErasedKey;
use dice::task::same_result;
use dice::task::DiceError;
use dice::task::DiceValue;
use dice::versions::VersionNumber;

#[test]
fn a_write_to_a_dependency_recomputes_the_dependent_once() {
    let a = DiceKey::new(0);
    let b = DiceKey::new(1);
    let mut dice = Dice::new();
    let mut computed_a = 0;
    let mut computed_b = 0;

    // A write brings the engine to version 1.
    assert_eq!(dice.record_write(b), VersionNumber(1));
    let ctx = dice.begin_read();
    assert_eq!(ctx.version, VersionNumber(1));

    // evaluate(A) at version 1: A is computed, and asks for B on the way.
    assert_eq!(dice.evaluate(a, ctx), Evaluation::Compute(a));
    assert_eq!(dice.evaluate(b, ctx), Evaluation::Compute(b));
    computed_b += 1;
    assert!(dice.commit(b, ctx, Ok(DiceValue(10)), vec![]));
    let seen_b = dice.observe(b, ctx).unwrap();
    computed_a += 1;
    assert!(dice.commit(a, ctx, Ok(DiceValue(11)), vec![seen_b]));
    assert_eq!(dice.evaluate(a, ctx), Evaluation::Ready(Ok(DiceValue(11))));

    // record_write(B) advances to version 2 and dirties B and, through the
    // reverse edge, A.
    assert_eq!(dice.record_write(b), VersionNumber(2));
    assert_eq!(dice.evaluate(a, ctx), Evaluation::Stale);
    let ctx = dice.begin_read();
    assert_eq!(ctx.version, VersionNumber(2));

    // evaluate(A) walks the recorded dependency on B.
    assert_eq!(dice.evaluate(a, ctx), Evaluation::CheckDependency(b));
    assert_eq!(dice.evaluate(b, ctx), Evaluation::Compute(b));
    computed_b += 1;
    assert!(dice.commit(b, ctx, Ok(DiceValue(20)), vec![]));
    // B changed, so A is computed again.
    assert_eq!(dice.resume(a, ctx), Evaluation::Compute(a));
    assert_eq!(dice.evaluate(b, ctx), Evaluation::Ready(Ok(DiceValue(20))));
    let seen_b = dice.observe(b, ctx).unwrap();
    computed_a += 1;
    assert!(dice.commit(a, ctx, Ok(DiceValue(21)), vec![seen_b]));

    // Repeated requests are served from the cache.
    assert_eq!(dice.evaluate(a, ctx), Evaluation::Ready(Ok(DiceValue(21))));
    assert_eq!(dice.evaluate(a, ctx), Evaluation::Ready(Ok(DiceValue(21))));
    assert_eq!(computed_a, 2);
    assert_eq!(computed_b, 2);
}

fn fresh() -> (Dice, dice::dice::TransactionCtx) {
    let mut dice = Dice::new();
    dice.record_write(DiceKey::new(0));
    let ctx = dice.begin_read();
    (dice, ctx)
}

#[test]
fn a_new_engine_is_at_version_zero_and_empty() {
    let dice = Dice::new();
    assert_eq!(dice.current_version(), VersionNumber(0));
    assert_eq!(dice.active_tasks_count(), 0);
    assert!(dice.introspect().is_empty());
    assert!(!dice.is_exhausted());
    assert!(!dice.reads_exhausted());
}

#[test]
fn of_many_requests_for_one_key_only_the_first_computes() {
    let (mut dice, ctx) = fresh();
    let key = DiceKey::new(5);
    let mut owners = 0;
    for _ in 0..10 {
        match dice.evaluate(key, ctx) {
            Evaluation::Compute(k) => {
                assert_eq!(k, key);
                owners += 1;
            }
            Evaluation::InFlight(k) => assert_eq!(k, key),
            other => panic!("unexpected answer {:?}", other),
        }
    }
    assert_eq!(owners, 1);
    assert_eq!(dice.active_tasks_count(), 1);
    assert!(dice.commit(key, ctx, Ok(DiceValue(42)), vec![]));
    for _ in 0..10 {
        assert_eq!(dice.evaluate(key, ctx), Evaluation::Ready(Ok(DiceValue(42))));
    }
}

#[test]
fn a_commit_without_the_task_is_not_taken() {
    let (mut dice, ctx) = fresh();
    let key = DiceKey::new(5);
    assert!(!dice.commit(key, ctx, Ok(DiceValue(1)), vec![]));
    assert_eq!(dice.evaluate(key, ctx), Evaluation::Compute(key));
    assert!(dice.commit(key, ctx, Ok(DiceValue(1)), vec![]));
    // The task is completed: a second commit is not taken either.
    assert!(!dice.commit(key, ctx, Ok(DiceValue(2)), vec![]));
    assert_eq!(dice.evaluate(key, ctx), Evaluation::Ready(Ok(DiceValue(1))));
}

#[test]
fn a_computation_that_was_superseded_drops_its_result() {
    let (mut dice, old_ctx) = fresh();
    let key = DiceKey::new(5);
    assert_eq!(dice.evaluate(key, old_ctx), Evaluation::Compute(key));
    dice.record_write(DiceKey::new(9));
    // The write is recorded: the old transaction is stale.
    assert!(!dice.commit(key, old_ctx, Ok(DiceValue(1)), vec![]));
    assert_eq!(dice.evaluate(key, old_ctx), Evaluation::Stale);
    assert_eq!(dice.resume(key, old_ctx), Evaluation::Stale);
    let ctx = dice.begin_read();
    assert!(!dice.commit(key, old_ctx, Ok(DiceValue(1)), vec![]));
    // The task of the old version does not block the new one.
    assert_eq!(dice.evaluate(key, ctx), Evaluation::Compute(key));
    assert_eq!(dice.evaluate(key, ctx), Evaluation::InFlight(key));
    assert!(dice.commit(key, ctx, Ok(DiceValue(2)), vec![]));
    assert_eq!(dice.evaluate(key, ctx), Evaluation::Ready(Ok(DiceValue(2))));
}

#[test]
fn an_observation_that_no_longer_holds_stops_the_commit() {
    let (mut dice, ctx) = fresh();
    let a = DiceKey::new(1);
    let b = DiceKey::new(2);
    assert_eq!(dice.evaluate(b, ctx), Evaluation::Compute(b));
    assert!(dice.commit(b, ctx, Ok(DiceValue(7)), vec![]));
    let seen = dice.observe(b, ctx).unwrap();
    assert_eq!(dice.evaluate(a, ctx), Evaluation::Compute(a));
    // An observation of another version is refused.
    let other = ComputedDependency::new(b, VersionNumber(0), seen.get_history());
    assert!(!dice.commit(a, ctx, Ok(DiceValue(8)), vec![other]));
    // So is one of a node that is gone.
    let gone = ComputedDependency::new(DiceKey::new(77), ctx.version, seen.get_history());
    assert!(!dice.commit(a, ctx, Ok(DiceValue(8)), vec![gone]));
    assert!(dice.observe(DiceKey::new(77), ctx).is_none());
    assert!(dice.commit(a, ctx, Ok(DiceValue(8)), vec![seen]));
}

#[test]
fn a_dependency_that_comes_out_the_same_lets_the_dependent_be_reused() {
    let a = DiceKey::new(0);
    let b = DiceKey::new(1);
    let (mut dice, ctx) = fresh();
    assert_eq!(dice.evaluate(b, ctx), Evaluation::Compute(b));
    assert!(dice.commit(b, ctx, Ok(DiceValue(10)), vec![]));
    assert_eq!(dice.evaluate(a, ctx), Evaluation::Compute(a));
    let seen = dice.observe(b, ctx).unwrap();
    assert!(dice.commit(a, ctx, Ok(DiceValue(11)), vec![seen]));

    dice.record_write(b);
    let ctx = dice.begin_read();
    assert_eq!(dice.active_tasks_count(), 0);
    assert_eq!(dice.evaluate(a, ctx), Evaluation::CheckDependency(b));
    assert_eq!(dice.evaluate(b, ctx), Evaluation::Compute(b));
    // B is computed again and comes out as before.
    assert!(dice.commit(b, ctx, Ok(DiceValue(10)), vec![]));
    // A is not computed again.
    assert_eq!(dice.resume(a, ctx), Evaluation::Ready(Ok(DiceValue(11))));
    assert_eq!(dice.evaluate(a, ctx), Evaluation::Ready(Ok(DiceValue(11))));
}

#[test]
fn a_write_leaves_what_does_not_depend_on_it_cached() {
    let (mut dice, ctx) = fresh();
    let a = DiceKey::new(1);
    let b = DiceKey::new(2);
    for (key, value) in [(a, 1), (b, 2)] {
        assert_eq!(dice.evaluate(key, ctx), Evaluation::Compute(key));
        assert!(dice.commit(key, ctx, Ok(DiceValue(value)), vec![]));
    }
    dice.record_write(a);
    let ctx = dice.begin_read();
    assert_eq!(dice.active_tasks_count(), 1);
    assert_eq!(dice.evaluate(b, ctx), Evaluation::Ready(Ok(DiceValue(2))));
    assert_eq!(dice.evaluate(a, ctx), Evaluation::Compute(a));
}

#[test]
fn a_node_is_reclaimed_only_when_nothing_reads_it() {
    let a = DiceKey::new(0);
    let b = DiceKey::new(1);
    let (mut dice, ctx) = fresh();
    assert_eq!(dice.evaluate(b, ctx), Evaluation::Compute(b));
    assert!(dice.commit(b, ctx, Ok(DiceValue(10)), vec![]));
    assert_eq!(dice.evaluate(a, ctx), Evaluation::Compute(a));
    let seen = dice.observe(b, ctx).unwrap();
    assert!(dice.commit(a, ctx, Ok(DiceValue(11)), vec![seen]));

    // A reads B: B stays, with its task.
    assert!(!dice.evict(b));
    assert_eq!(dice.active_tasks_count(), 2);
    assert_eq!(dice.evaluate(b, ctx), Evaluation::Ready(Ok(DiceValue(10))));
    // Nothing reads A: A goes, and then B can go.
    assert!(dice.evict(a));
    assert_eq!(dice.active_tasks_count(), 1);
    assert!(dice.evict(b));
    assert!(!dice.evict(b));
    assert!(dice.introspect().is_empty());
    assert_eq!(dice.evaluate(a, ctx), Evaluation::Compute(a));
}

#[test]
fn an_evicted_dependent_is_skipped_when_a_write_is_propagated() {
    let a = DiceKey::new(0);
    let b = DiceKey::new(1);
    let (mut dice, ctx) = fresh();
    assert_eq!(dice.evaluate(b, ctx), Evaluation::Compute(b));
    assert!(dice.commit(b, ctx, Ok(DiceValue(10)), vec![]));
    assert_eq!(dice.evaluate(a, ctx), Evaluation::Compute(a));
    let seen = dice.observe(b, ctx).unwrap();
    assert!(dice.commit(a, ctx, Ok(DiceValue(11)), vec![seen]));
    assert!(dice.evict(a));

    dice.record_write(b);
    let ctx = dice.begin_read();
    let dump = dice.introspect();
    assert_eq!(dump.len(), 1);
    assert_eq!(dump[0].key, b);
    assert_eq!(dump[0].read_by, vec![a]);
    assert_eq!(dump[0].history.dirtied, Some(ctx.version));
    assert_eq!(dice.evaluate(a, ctx), Evaluation::Compute(a));
}

#[test]
fn the_dump_shows_the_edges_in_both_directions() {
    let a = DiceKey::new(0);
    let b = DiceKey::new(1);
    let (mut dice, ctx) = fresh();
    assert_eq!(dice.evaluate(b, ctx), Evaluation::Compute(b));
    assert!(dice.commit(b, ctx, Ok(DiceValue(10)), vec![]));
    assert_eq!(dice.evaluate(a, ctx), Evaluation::Compute(a));
    let seen = dice.observe(b, ctx).unwrap();
    assert!(dice.commit(a, ctx, Ok(DiceValue(11)), vec![seen]));
    let mut dump = dice.introspect();
    dump.sort_by_key(|shot| shot.key);
    assert_eq!(dump.len(), 2);
    assert_eq!(dump[0].reads, vec![b]);
    assert!(dump[0].read_by.is_empty());
    assert!(dump[1].reads.is_empty());
    assert_eq!(dump[1].read_by, vec![a]);
    assert_eq!(dump[0].value, Ok(DiceValue(11)));
}

#[test]
fn asking_again_through_an_edge_gives_the_value_and_the_observation() {
    let b = DiceKey::new(1);
    let (mut dice, ctx) = fresh();
    let edge = dice::dependencies::Dependency::new(b);
    assert_eq!(edge.recompute(&mut dice, ctx), (Evaluation::Compute(b), None));
    assert!(dice.commit(b, ctx, Ok(DiceValue(10)), vec![]));
    let (answer, seen) = edge.recompute(&mut dice, ctx);
    assert_eq!(answer, Evaluation::Ready(Ok(DiceValue(10))));
    let seen = seen.unwrap();
    assert_eq!(seen.get_key_equality(), (b, ctx.version));
    assert!(seen.is_valid());
}

#[test]
fn reads_of_one_version_are_told_apart() {
    let mut dice = Dice::new();
    let first = dice.begin_read();
    let second = dice.begin_read();
    assert_eq!(first.version, second.version);
    assert_ne!(first.minor, second.minor);
    assert!(dice.observes_now(first));
    dice.record_write(DiceKey::new(0));
    assert!(!dice.observes_now(first));
}

#[test]
fn a_failure_is_handed_to_every_requester_and_not_retried() {
    let (mut dice, ctx) = fresh();
    let key = DiceKey::new(5);
    assert_eq!(dice.evaluate(key, ctx), Evaluation::Compute(key));
    assert_eq!(dice.evaluate(key, ctx), Evaluation::InFlight(key));
    assert!(dice.commit(key, ctx, Err(DiceError(13)), vec![]));
    for _ in 0..3 {
        assert_eq!(dice.evaluate(key, ctx), Evaluation::Ready(Err(DiceError(13))));
    }
    // Another read of the same version still gets the failure.
    let ctx = dice.begin_read();
    assert_eq!(dice.evaluate(key, ctx), Evaluation::Ready(Err(DiceError(13))));
}

#[test]
fn results_are_the_same_when_value_or_failure_agree() {
    assert!(same_result(&Ok(DiceValue(1)), &Ok(DiceValue(1))));
    assert!(!same_result(&Ok(DiceValue(1)), &Ok(DiceValue(2))));
    assert!(same_result(&Err(DiceError(1)), &Err(DiceError(1))));
    assert!(!same_result(&Err(DiceError(1)), &Err(DiceError(2))));
    assert!(!same_result(&Ok(DiceValue(1)), &Err(DiceError(1))));
    assert!(!same_result(&Err(DiceError(1)), &Ok(DiceValue(1))));
}

#[test]
fn a_write_marks_everything_that_rests_on_it() {
    // 2 reads 1, 1 reads 0; 3 stands alone.
    let (mut dice, ctx) = fresh();
    let keys: Vec<DiceKey> = (0..4).map(DiceKey::new).collect();
    assert_eq!(dice.evaluate(keys[0], ctx), Evaluation::Compute(keys[0]));
    assert!(dice.commit(keys[0], ctx, Ok(DiceValue(0)), vec![]));
    for i in 1..3 {
        assert_eq!(dice.evaluate(keys[i], ctx), Evaluation::Compute(keys[i]));
        let seen = dice.observe(keys[i - 1], ctx).unwrap();
        assert!(dice.commit(keys[i], ctx, Ok(DiceValue(i as u64)), vec![seen]));
    }
    assert_eq!(dice.evaluate(keys[3], ctx), Evaluation::Compute(keys[3]));
    assert!(dice.commit(keys[3], ctx, Ok(DiceValue(3)), vec![]));
    assert_eq!(dice.active_tasks_count(), 4);

    let v = dice.record_write(keys[0]);
    let ctx = dice.begin_read();
    let mut dump = dice.introspect();
    dump.sort_by_key(|shot| shot.key);
    for i in 0..3 {
        assert_eq!(dump[i].history.dirtied, Some(v));
    }
    assert_eq!(dump[3].history.dirtied, None);
    assert_eq!(dice.active_tasks_count(), 1);
    // The top of the chain is checked from the bottom up.
    assert_eq!(dice.evaluate(keys[2], ctx), Evaluation::CheckDependency(keys[1]));
    assert_eq!(dice.evaluate(keys[1], ctx), Evaluation::CheckDependency(keys[0]));
    assert_eq!(dice.evaluate(keys[0], ctx), Evaluation::Compute(keys[0]));
    assert!(dice.commit(keys[0], ctx, Ok(DiceValue(0)), vec![]));
    assert_eq!(dice.resume(keys[1], ctx), Evaluation::Ready(Ok(DiceValue(1))));
    assert_eq!(dice.resume(keys[2], ctx), Evaluation::Ready(Ok(DiceValue(2))));
    // Resuming a completed task gives its result; resuming none, nothing.
    assert_eq!(dice.resume(keys[2], ctx), Evaluation::Ready(Ok(DiceValue(2))));
    assert_eq!(dice.resume(DiceKey::new(9), ctx), Evaluation::Stale);
}

#[test]
fn the_engine_interns_the_identities_of_its_keys() {
    let mut dice = Dice::new();
    assert!(!dice.keys_exhausted());
    let a = dice.intern(ErasedKey::new(1, b"a".to_vec()));
    let b = dice.intern(ErasedKey::new(1, b"b".to_vec()));
    assert_ne!(a, b);
    assert_eq!(dice.intern(ErasedKey::new(1, b"a".to_vec())), a);
    assert_eq!(dice.handle_of(&ErasedKey::new(1, b"b".to_vec())), Some(b));
    assert_eq!(dice.handle_of(&ErasedKey::new(2, b"b".to_vec())), None);
    assert_eq!(dice.identity(b).unwrap().repr, b"b".to_vec());
    assert!(dice.identity(DiceKey::new(5)).is_none());
}
