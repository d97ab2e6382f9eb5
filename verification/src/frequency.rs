//! The model frequency map: for each model that was seen, a score that
//! counts its successful completions, or marks its last attempt as failed.

use vstd::prelude::*;
use crate::text::{str_equal, text_views};

verus! {

/// The score of a model whose last attempt failed. Such a model is not
/// offered; every other score is a count of successes.
pub const FAILED: i32 = -1;

/// A model and its score, as a mathematical value.
pub struct ScoreEntry {
    pub model: Seq<char>,
    pub score: int,
}

/// A model and its score.
#[derive(Debug)]
pub struct ModelScore {
    pub model: String,
    pub score: i32,
}

impl View for ModelScore {
    type V = ScoreEntry;

    open spec fn view(&self) -> ScoreEntry {
        ScoreEntry { model: self.model@, score: self.score as int }
    }
}

impl Clone for ModelScore {
    /// A copy with the same model and score.
    fn clone(&self) -> (copy: Self)
        ensures
            copy == *self,
    {
        ModelScore { model: self.model.clone(), score: self.score }
    }
}

/// The views of a sequence of entries, element by element.
pub open spec fn entry_views(items: Seq<ModelScore>) -> Seq<ScoreEntry> {
    items.map_values(|item: ModelScore| item@)
}

/// No model has two entries.
pub open spec fn distinct_models(entries: Seq<ScoreEntry>) -> bool {
    forall|i: int, j: int|
        0 <= i < j < entries.len() ==> (#[trigger] entries[i]).model != (#[trigger] entries[j]).model
}

/// Whether `model` has an entry.
pub open spec fn has_model(entries: Seq<ScoreEntry>, model: Seq<char>) -> bool {
    exists|i: int| 0 <= i < entries.len() && (#[trigger] entries[i]).model == model
}

/// The place of the first entry of `model`, or the number of entries if
/// it has none.
pub open spec fn position_of(entries: Seq<ScoreEntry>, model: Seq<char>) -> nat
    decreases entries.len(),
{
    if entries.len() == 0 || entries[0].model == model {
        0
    } else {
        1 + position_of(entries.skip(1), model)
    }
}

/// The score of `model`, if it has an entry.
pub open spec fn score_of(entries: Seq<ScoreEntry>, model: Seq<char>) -> Option<int> {
    let at = position_of(entries, model);
    if at < entries.len() {
        Some(entries[at as int].score)
    } else {
        None
    }
}

/// The entries with the score of `model` set to `score`: in place where
/// the model has an entry, in a new last entry where it has none.
pub open spec fn with_score(entries: Seq<ScoreEntry>, model: Seq<char>, score: int) -> Seq<
    ScoreEntry,
> {
    let at = position_of(entries, model);
    if at < entries.len() {
        entries.update(at as int, ScoreEntry { model, score })
    } else {
        entries.push(ScoreEntry { model, score })
    }
}

/// The score of `model` after one more attempt: a success adds 1 to its
/// score, counted from 0 for a model without an entry; a failure makes it
/// `FAILED` whatever it was.
pub open spec fn score_after(entries: Seq<ScoreEntry>, model: Seq<char>, succeeded: bool) -> int {
    if succeeded {
        match score_of(entries, model) {
            Some(score) => score + 1,
            None => 1,
        }
    } else {
        FAILED as int
    }
}

/// The entries after one more attempt with `model`.
pub open spec fn recorded(entries: Seq<ScoreEntry>, model: Seq<char>, succeeded: bool) -> Seq<
    ScoreEntry,
> {
    with_score(entries, model, score_after(entries, model, succeeded))
}

/// The entries after `count` successes of `model` in a row.
pub open spec fn recorded_successes(entries: Seq<ScoreEntry>, model: Seq<char>, count: nat) -> Seq<
    ScoreEntry,
>
    decreases count,
{
    if count == 0 {
        entries
    } else {
        recorded(recorded_successes(entries, model, (count - 1) as nat), model, true)
    }
}

/// The entries after each of `models` that had no entry was given one
/// with score 0, in the order of `models`.
pub open spec fn with_known(entries: Seq<ScoreEntry>, models: Seq<Seq<char>>) -> Seq<ScoreEntry>
    decreases models.len(),
{
    if models.len() == 0 {
        entries
    } else {
        let before = with_known(entries, models.drop_last());
        if has_model(before, models.last()) {
            before
        } else {
            before.push(ScoreEntry { model: models.last(), score: 0 })
        }
    }
}

/// Whether the entry at `i` is offered before the entry at `j`: it has
/// the higher score, or the same score and the earlier place.
pub open spec fn ranks_before(entries: Seq<ScoreEntry>, i: int, j: int) -> bool {
    entries[i].score > entries[j].score || (entries[i].score == entries[j].score && i < j)
}

/// Whether `order` lists the places of exactly the entries that are not
/// `FAILED`, each once, by descending score, and by place among equal
/// scores.
pub open spec fn is_ranking(entries: Seq<ScoreEntry>, order: Seq<int>) -> bool {
    &&& forall|k: int|
        0 <= k < order.len() ==> 0 <= #[trigger] order[k] < entries.len() && entries[order[k]].score
            != FAILED
    &&& forall|i: int|
        0 <= i < entries.len() && (#[trigger] entries[i]).score != FAILED ==> order.contains(i)
    &&& forall|a: int, b: int|
        0 <= a < b < order.len() ==> #[trigger] ranks_before(entries, order[a], order[b])
}

/// Whether `models` are the models that are offered, in the order in
/// which they are offered.
pub open spec fn is_available_list(entries: Seq<ScoreEntry>, models: Seq<Seq<char>>) -> bool {
    exists|order: Seq<int>|
        #![trigger is_ranking(entries, order)]
        is_ranking(entries, order) && models == order.map_values(|i: int| entries[i].model)
}

/// `position_of` lies within the entries, no entry before it is of the
/// model, and the entry at it is, unless it is the length.
pub proof fn lemma_position_of(entries: Seq<ScoreEntry>, model: Seq<char>)
    ensures
        position_of(entries, model) <= entries.len(),
        forall|j: int| 0 <= j < position_of(entries, model) ==> (#[trigger] entries[j]).model != model,
        position_of(entries, model) < entries.len() ==> entries[position_of(
            entries,
            model,
        ) as int].model == model,
        has_model(entries, model) <==> position_of(entries, model) < entries.len(),
    decreases entries.len(),
{
    if entries.len() == 0 || entries[0].model == model {
        if entries.len() > 0 {
            assert(entries[0].model == model);
        }
    } else {
        let rest = entries.skip(1);
        lemma_position_of(rest, model);
        let at = position_of(entries, model) as int;
        assert forall|j: int| 0 <= j < at implies (#[trigger] entries[j]).model != model by {
            if j > 0 {
                assert(entries[j] == rest[j - 1]);
            }
        }
        if at < entries.len() {
            assert(entries[at] == rest[at - 1]);
        }
        if has_model(entries, model) {
            let i = choose|i: int| 0 <= i < entries.len() && (#[trigger] entries[i]).model == model;
            assert(rest[i - 1] == entries[i]);
        }
    }
}

/// The position of a model is where its first entry stands.
pub proof fn lemma_position_at(entries: Seq<ScoreEntry>, model: Seq<char>, k: int)
    requires
        0 <= k <= entries.len(),
        forall|j: int| 0 <= j < k ==> (#[trigger] entries[j]).model != model,
        k < entries.len() ==> entries[k].model == model,
    ensures
        position_of(entries, model) == k,
{
    lemma_position_of(entries, model);
    let at = position_of(entries, model) as int;
    if at < k {
        assert(entries[at].model != model);
    } else if k < at {
        assert(entries[k].model != model);
    }
}

/// Setting a score keeps the models distinct, gives the model that score,
/// and leaves every other model as it was.
pub proof fn lemma_with_score(entries: Seq<ScoreEntry>, model: Seq<char>, score: int)
    requires
        distinct_models(entries),
    ensures
        distinct_models(with_score(entries, model, score)),
        score_of(with_score(entries, model, score), model) == Some(score),
        forall|other: Seq<char>|
            other != model ==> score_of(with_score(entries, model, score), other) == score_of(
                entries,
                other,
            ),
        position_of(with_score(entries, model, score), model) == position_of(entries, model),
{
    let after = with_score(entries, model, score);
    let at = position_of(entries, model) as int;
    lemma_position_of(entries, model);
    assert(after[at].model == model);
    assert forall|j: int| 0 <= j < at implies (#[trigger] after[j]).model != model by {
        assert(after[j] == entries[j]);
    }
    lemma_position_at(after, model, at);
    assert forall|i: int, j: int| 0 <= i < j < after.len() implies (#[trigger] after[i]).model != (
    #[trigger] after[j]).model by {
        if at < entries.len() {
            assert(after[i].model == entries[i].model);
            assert(after[j].model == entries[j].model);
        } else {
            if j < entries.len() {
                assert(after[i] == entries[i]);
                assert(after[j] == entries[j]);
            } else {
                assert(after[i] == entries[i]);
            }
        }
    }
    assert forall|other: Seq<char>| other != model implies score_of(after, other) == score_of(
        entries,
        other,
    ) by {
        lemma_position_of(entries, other);
        let k = position_of(entries, other) as int;
        assert forall|j: int| 0 <= j < k implies (#[trigger] after[j]).model != other by {
            if j != at {
                assert(after[j] == entries[j]);
            }
        }
        if k < entries.len() {
            assert(k != at);
            assert(after[k] == entries[k]);
            lemma_position_at(after, other, k);
        } else {
            assert forall|j: int| 0 <= j < after.len() implies (#[trigger] after[j]).model
                != other by {
                if j < entries.len() && j != at {
                    assert(after[j] == entries[j]);
                }
            }
            lemma_position_at(after, other, after.len() as int);
        }
    }
}


/// In entries with distinct models, an entry stands at the position of
/// its model.
pub proof fn lemma_position_of_entry(entries: Seq<ScoreEntry>, i: int)
    requires
        distinct_models(entries),
        0 <= i < entries.len(),
    ensures
        position_of(entries, entries[i].model) == i,
        score_of(entries, entries[i].model) == Some(entries[i].score),
{
    assert forall|j: int| 0 <= j < i implies (#[trigger] entries[j]).model != entries[i].model by {
        assert(entries[j].model != entries[i].model);
    }
    lemma_position_at(entries, entries[i].model, i);
}

/// After `count` successes in a row, the first of them at least, a model
/// has its earlier score plus `count`, counted from 0 where it had no
/// entry; so a model that starts without an entry, or at 0, has `count`.
/// The models stay distinct, and no other model changes its score.
pub proof fn lemma_successes_count(entries: Seq<ScoreEntry>, model: Seq<char>, count: nat)
    requires
        distinct_models(entries),
        count > 0,
    ensures
        distinct_models(recorded_successes(entries, model, count)),
        score_of(recorded_successes(entries, model, count), model) == Some(
            match score_of(entries, model) {
                Some(score) => score + count,
                None => count as int,
            },
        ),
        forall|other: Seq<char>|
            other != model ==> score_of(recorded_successes(entries, model, count), other)
                == score_of(entries, other),
    decreases count,
{
    let before = recorded_successes(entries, model, (count - 1) as nat);
    if count > 1 {
        lemma_successes_count(entries, model, (count - 1) as nat);
    }
    lemma_with_score(before, model, score_after(before, model, true));
}

/// One failure makes the score of a model `FAILED`, whatever it was, and
/// changes no other model.
pub proof fn lemma_failure_resets(entries: Seq<ScoreEntry>, model: Seq<char>)
    requires
        distinct_models(entries),
    ensures
        distinct_models(recorded(entries, model, false)),
        score_of(recorded(entries, model, false), model) == Some(FAILED as int),
        forall|other: Seq<char>|
            other != model ==> score_of(recorded(entries, model, false), other) == score_of(
                entries,
                other,
            ),
{
    lemma_with_score(entries, model, FAILED as int);
}

/// A success never lowers the score of a model that has one.
pub proof fn lemma_success_raises(entries: Seq<ScoreEntry>, model: Seq<char>)
    requires
        distinct_models(entries),
    ensures
        match (score_of(entries, model), score_of(recorded(entries, model, true), model)) {
            (Some(before), Some(after)) => after == before + 1,
            (None, Some(after)) => after == 1,
            (_, None) => false,
        },
{
    lemma_with_score(entries, model, score_after(entries, model, true));
}

/// Every score is `FAILED` or a count, which is not negative.
pub open spec fn scores_are_counts(entries: Seq<ScoreEntry>) -> bool {
    forall|i: int| 0 <= i < entries.len() ==> (#[trigger] entries[i]).score >= FAILED
}

/// Attempts and discoveries keep every score `FAILED` or a count.
pub proof fn lemma_scores_stay_counts(
    entries: Seq<ScoreEntry>,
    model: Seq<char>,
    succeeded: bool,
    models: Seq<Seq<char>>,
)
    requires
        scores_are_counts(entries),
    ensures
        scores_are_counts(recorded(entries, model, succeeded)),
        scores_are_counts(with_known(entries, models)),
    decreases models.len(),
{
    lemma_position_of(entries, model);
    let after = recorded(entries, model, succeeded);
    assert forall|i: int| 0 <= i < after.len() implies (#[trigger] after[i]).score >= FAILED by {
        if i < entries.len() && i != position_of(entries, model) {
            assert(after[i] == entries[i]);
        }
    }
    if models.len() > 0 {
        lemma_scores_stay_counts(entries, model, succeeded, models.drop_last());
        let before = with_known(entries, models.drop_last());
        let known = with_known(entries, models);
        assert forall|i: int| 0 <= i < known.len() implies (#[trigger] known[i]).score >= FAILED by {
            if i < before.len() {
                assert(known[i] == before[i]);
            }
        }
    }
}

/// Making models known gives every one of them an entry, keeps the score
/// of every model that had one, gives the others the score 0, and keeps
/// the models distinct.
pub proof fn lemma_with_known(entries: Seq<ScoreEntry>, models: Seq<Seq<char>>)
    requires
        distinct_models(entries),
    ensures
        distinct_models(with_known(entries, models)),
        entries.len() <= with_known(entries, models).len(),
        with_known(entries, models).take(entries.len() as int) == entries,
        forall|model: Seq<char>|
            has_model(entries, model) ==> score_of(with_known(entries, models), model) == score_of(
                entries,
                model,
            ),
        forall|model: Seq<char>|
            !has_model(entries, model) && models.contains(model) ==> score_of(
                with_known(entries, models),
                model,
            ) == Some(0int),
        forall|model: Seq<char>|
            !has_model(entries, model) && !models.contains(model) ==> !has_model(
                with_known(entries, models),
                model,
            ),
    decreases models.len(),
{
    let after = with_known(entries, models);
    if models.len() == 0 {
        assert(after.take(entries.len() as int) =~= entries);
    } else {
        let init = models.drop_last();
        let last = models.last();
        let before = with_known(entries, init);
        lemma_with_known(entries, init);
        lemma_position_of(before, last);
        lemma_with_score(before, last, 0);
        assert(!has_model(before, last) ==> after == with_score(before, last, 0));
        assert(after.take(entries.len() as int) =~= before.take(entries.len() as int));
        assert forall|model: Seq<char>| has_model(entries, model) implies score_of(after, model)
            == score_of(entries, model) by {
            let i = choose|i: int| 0 <= i < entries.len() && (#[trigger] entries[i]).model == model;
            assert(before.take(entries.len() as int)[i] == before[i]);
            assert(has_model(before, model));
        }
        assert forall|model: Seq<char>|
            !has_model(entries, model) && models.contains(model) implies score_of(after, model)
            == Some(0int) by {
            let k = choose|k: int| 0 <= k < models.len() && models[k] == model;
            if k < init.len() {
                assert(init[k] == model);
                assert(init.contains(model));
                lemma_position_of(before, model);
            }
        }
        assert forall|model: Seq<char>|
            !has_model(entries, model) && !models.contains(model) implies !has_model(
            after,
            model,
        ) by {
            assert(models[models.len() - 1] == last);
            assert(model != last);
            assert forall|k: int| 0 <= k < init.len() implies init[k] != model by {
                assert(models[k] == init[k]);
            }
            assert(!init.contains(model));
            lemma_position_of(before, model);
            lemma_position_of(after, model);
        }
    }
}

/// Whether `order` is sorted by `ranks_before`.
pub open spec fn is_ranked(entries: Seq<ScoreEntry>, order: Seq<int>) -> bool {
    forall|a: int, b: int|
        0 <= a < b < order.len() ==> #[trigger] ranks_before(entries, order[a], order[b])
}

/// Two sequences that are sorted by `ranks_before` and hold the same
/// places are the same sequence.
pub proof fn lemma_ranked_unique(entries: Seq<ScoreEntry>, x: Seq<int>, y: Seq<int>)
    requires
        is_ranked(entries, x),
        is_ranked(entries, y),
        forall|v: int| x.contains(v) <==> y.contains(v),
    ensures
        x == y,
    decreases x.len(),
{
    if x.len() == 0 {
        if y.len() > 0 {
            assert(y.contains(y[0]));
        }
        assert(x =~= y);
    } else {
        assert(x.contains(x[0]));
        let p = choose|p: int| 0 <= p < y.len() && y[p] == x[0];
        assert(y.contains(y[0]));
        let q = choose|q: int| 0 <= q < x.len() && x[q] == y[0];
        if p > 0 && q > 0 {
            assert(ranks_before(entries, y[0], y[p]));
            assert(ranks_before(entries, x[0], x[q]));
        }
        assert(x[0] == y[0]);
        let xs = x.skip(1);
        let ys = y.skip(1);
        assert forall|a: int, b: int| 0 <= a < b < xs.len() implies #[trigger] ranks_before(
            entries,
            xs[a],
            xs[b],
        ) by {
            assert(xs[a] == x[a + 1] && xs[b] == x[b + 1]);
        }
        assert forall|a: int, b: int| 0 <= a < b < ys.len() implies #[trigger] ranks_before(
            entries,
            ys[a],
            ys[b],
        ) by {
            assert(ys[a] == y[a + 1] && ys[b] == y[b + 1]);
        }
        assert forall|v: int| xs.contains(v) <==> ys.contains(v) by {
            if xs.contains(v) {
                let k = choose|k: int| 0 <= k < xs.len() && xs[k] == v;
                assert(x[k + 1] == v);
                assert(ranks_before(entries, x[0], x[k + 1]));
                assert(x.contains(v));
                let m = choose|m: int| 0 <= m < y.len() && y[m] == v;
                assert(m > 0);
                assert(ys[m - 1] == v);
            }
            if ys.contains(v) {
                let k = choose|k: int| 0 <= k < ys.len() && ys[k] == v;
                assert(y[k + 1] == v);
                assert(ranks_before(entries, y[0], y[k + 1]));
                assert(y.contains(v));
                let m = choose|m: int| 0 <= m < x.len() && x[m] == v;
                assert(m > 0);
                assert(xs[m - 1] == v);
            }
        }
        lemma_ranked_unique(entries, xs, ys);
        assert(x =~= seq![x[0]] + xs);
        assert(y =~= seq![y[0]] + ys);
    }
}

/// The list of the models that are offered holds no model whose score is
/// `FAILED` and every model with another score, each once; it is sorted
/// by descending score, and among equal scores by the order in which the
/// models were first entered.
pub proof fn lemma_available_list(entries: Seq<ScoreEntry>, models: Seq<Seq<char>>)
    requires
        distinct_models(entries),
        is_available_list(entries, models),
    ensures
        forall|k: int|
            0 <= k < models.len() ==> has_model(entries, #[trigger] models[k]) && score_of(
                entries,
                models[k],
            ) != Some(FAILED as int),
        forall|model: Seq<char>|
            has_model(entries, model) && score_of(entries, model) != Some(FAILED as int)
                ==> models.contains(model),
        models.no_duplicates(),
        forall|a: int, b: int|
            0 <= a < b < models.len() ==> {
                let first = score_of(entries, #[trigger] models[a]).unwrap();
                let second = score_of(entries, #[trigger] models[b]).unwrap();
                first > second || (first == second && position_of(entries, models[a]) < position_of(
                    entries,
                    models[b],
                ))
            },
{
    let order = choose|order: Seq<int>|
        #![trigger is_ranking(entries, order)]
        is_ranking(entries, order) && models == order.map_values(|i: int| entries[i].model);
    assert forall|k: int| 0 <= k < models.len() implies has_model(entries, #[trigger] models[k])
        && score_of(entries, models[k]) != Some(FAILED as int) && position_of(entries, models[k])
        == order[k] && score_of(entries, models[k]) == Some(entries[order[k]].score) by {
        assert(0 <= order[k] < entries.len());
        lemma_position_of_entry(entries, order[k]);
        assert(entries[order[k]].model == models[k]);
    }
    assert forall|model: Seq<char>|
        has_model(entries, model) && score_of(entries, model) != Some(
            FAILED as int,
        ) implies models.contains(model) by {
        lemma_position_of(entries, model);
        let i = position_of(entries, model) as int;
        assert(entries[i].score != FAILED);
        assert(order.contains(i));
        let k = choose|k: int| 0 <= k < order.len() && order[k] == i;
        assert(models[k] == model);
    }
    assert forall|a: int, b: int| 0 <= a < b < models.len() implies {
        let first = score_of(entries, #[trigger] models[a]).unwrap();
        let second = score_of(entries, #[trigger] models[b]).unwrap();
        first > second || (first == second && position_of(entries, models[a]) < position_of(
            entries,
            models[b],
        ))
    } by {
        assert(ranks_before(entries, order[a], order[b]));
    }
    assert forall|a: int, b: int| 0 <= a < models.len() && 0 <= b < models.len() && a
        != b implies models[a] != models[b] by {
        if a < b {
            assert(ranks_before(entries, order[a], order[b]));
        } else {
            assert(ranks_before(entries, order[b], order[a]));
        }
        assert(position_of(entries, models[a]) == order[a]);
        assert(position_of(entries, models[b]) == order[b]);
    }
}

/// The entries decide the list of the models that are offered: two such
/// lists of the same entries are equal.
pub proof fn lemma_available_list_unique(
    entries: Seq<ScoreEntry>,
    first: Seq<Seq<char>>,
    second: Seq<Seq<char>>,
)
    requires
        is_available_list(entries, first),
        is_available_list(entries, second),
    ensures
        first == second,
{
    let x = choose|order: Seq<int>|
        #![trigger is_ranking(entries, order)]
        is_ranking(entries, order) && first == order.map_values(|i: int| entries[i].model);
    let y = choose|order: Seq<int>|
        #![trigger is_ranking(entries, order)]
        is_ranking(entries, order) && second == order.map_values(|i: int| entries[i].model);
    assert forall|v: int| x.contains(v) <==> y.contains(v) by {
        if x.contains(v) {
            let k = choose|k: int| 0 <= k < x.len() && x[k] == v;
            assert(0 <= x[k] < entries.len() && entries[x[k]].score != FAILED);
            assert(entries[v].score != FAILED);
        }
        if y.contains(v) {
            let k = choose|k: int| 0 <= k < y.len() && y[k] == v;
            assert(0 <= y[k] < entries.len() && entries[y[k]].score != FAILED);
            assert(entries[v].score != FAILED);
        }
    }
    lemma_ranked_unique(entries, x, y);
}

/// The places that a vector of indices holds.
pub open spec fn places(order: Seq<usize>) -> Seq<int> {
    order.map_values(|at: usize| at as int)
}

/// Whether `order` ranks the entries before `upto` as `is_ranking` asks.
pub open spec fn is_ranking_upto(entries: Seq<ScoreEntry>, order: Seq<int>, upto: int) -> bool {
    &&& forall|k: int|
        0 <= k < order.len() ==> 0 <= #[trigger] order[k] < upto && entries[order[k]].score != FAILED
    &&& forall|i: int|
        0 <= i < upto && (#[trigger] entries[i]).score != FAILED ==> order.contains(i)
    &&& forall|a: int, b: int|
        0 <= a < b < order.len() ==> #[trigger] ranks_before(entries, order[a], order[b])
}

/// A ranking of the entries before `upto`, with the place `upto` put in
/// behind the last place whose score is not smaller, ranks the entries up
/// to and with `upto`.
pub proof fn lemma_rank_insert(entries: Seq<ScoreEntry>, order: Seq<int>, upto: int, at: int)
    requires
        0 <= upto < entries.len(),
        is_ranking_upto(entries, order, upto),
        entries[upto].score != FAILED,
        0 <= at <= order.len(),
        at > 0 ==> entries[order[at - 1]].score >= entries[upto].score,
        forall|k: int| at <= k < order.len() ==> entries[#[trigger] order[k]].score < entries[upto].score,
    ensures
        is_ranking_upto(entries, order.insert(at, upto), upto + 1),
{
    let after = order.insert(at, upto);
    assert forall|k: int| 0 <= k < after.len() implies 0 <= #[trigger] after[k] < upto + 1
        && entries[after[k]].score != FAILED by {
        if k < at {
            assert(after[k] == order[k]);
        } else if k > at {
            assert(after[k] == order[k - 1]);
        }
    }
    assert forall|i: int| 0 <= i < upto + 1 && (#[trigger] entries[i]).score != FAILED implies after.contains(
        i,
    ) by {
        if i == upto {
            assert(after[at] == i);
        } else {
            assert(order.contains(i));
            let k = choose|k: int| 0 <= k < order.len() && order[k] == i;
            if k < at {
                assert(after[k] == i);
            } else {
                assert(after[k + 1] == i);
            }
        }
    }
    assert forall|a: int, b: int| 0 <= a < b < after.len() implies #[trigger] ranks_before(
        entries,
        after[a],
        after[b],
    ) by {
        if b < at {
            assert(after[a] == order[a] && after[b] == order[b]);
        } else if b == at {
            assert(after[a] == order[a]);
            if a < at - 1 {
                assert(ranks_before(entries, order[a], order[at - 1]));
            }
            assert(order[a] < upto);
        } else if a < at {
            assert(after[a] == order[a] && after[b] == order[b - 1]);
        } else if a == at {
            assert(after[b] == order[b - 1]);
        } else {
            assert(after[a] == order[a - 1] && after[b] == order[b - 1]);
        }
    }
}

/// A map from models to scores that keeps the order in which the models
/// were first entered.
#[derive(Debug)]
pub struct FrequencyMap {
    entries: Vec<ModelScore>,
}

impl View for FrequencyMap {
    type V = Seq<ScoreEntry>;

    closed spec fn view(&self) -> Seq<ScoreEntry> {
        entry_views(self.entries@)
    }
}

impl FrequencyMap {
    /// No model has two entries. Every map that this module hands out is
    /// well formed, and its operations keep it so.
    pub open spec fn wf(&self) -> bool {
        distinct_models(self@)
    }

    /// A map without entries.
    pub fn new() -> (map: Self)
        ensures
            map@ == Seq::<ScoreEntry>::empty(),
            map.wf(),
    {
        let map = FrequencyMap { entries: Vec::new() };
        assert(map@ =~= Seq::<ScoreEntry>::empty());
        map
    }

    /// The number of models that have an entry.
    pub fn len(&self) -> (count: usize)
        ensures
            count == self@.len(),
    {
        self.entries.len()
    }

    /// Tells whether no model has an entry.
    pub fn is_empty(&self) -> (empty: bool)
        ensures
            empty == (self@.len() == 0),
    {
        self.entries.len() == 0
    }

    /// The entries, in the order in which their models were first entered.
    pub fn entries(&self) -> (entries: &Vec<ModelScore>)
        ensures
            entry_views(entries@) == self@,
    {
        &self.entries
    }

    /// The place of the entry of `model`, or the number of entries.
    fn find(&self, model: &str) -> (at: usize)
        ensures
            at == position_of(self@, model@),
            at <= self.entries@.len(),
    {
        let mut at: usize = 0;
        while at < self.entries.len()
            invariant
                at <= self.entries@.len(),
                forall|j: int| 0 <= j < at ==> (#[trigger] self@[j]).model != model@,
            decreases self.entries@.len() - at,
        {
            if str_equal(self.entries[at].model.as_str(), model) {
                proof {
                    assert(self@[at as int].model == model@);
                    lemma_position_at(self@, model@, at as int);
                }
                return at;
            }
            at = at + 1;
        }
        proof {
            lemma_position_at(self@, model@, at as int);
        }
        at
    }

    /// Tells whether `model` has an entry.
    pub fn contains_key(&self, model: &str) -> (found: bool)
        ensures
            found == has_model(self@, model@),
    {
        proof {
            lemma_position_of(self@, model@);
        }
        self.find(model) < self.entries.len()
    }

    /// The score of `model`, if it has an entry.
    pub fn get(&self, model: &str) -> (score: Option<&i32>)
        ensures
            match score {
                Some(s) => score_of(self@, model@) == Some(*s as int),
                None => score_of(self@, model@) is None,
            },
    {
        let at = self.find(model);
        if at < self.entries.len() {
            Some(&self.entries[at].score)
        } else {
            None
        }
    }

    /// Sets the score of `model`, in place where it has an entry and in a
    /// new last entry where it has none, and hands back the score it had.
    pub fn insert(&mut self, model: String, score: i32) -> (previous: Option<i32>)
        requires
            old(self).wf(),
        ensures
            final(self)@ == with_score(old(self)@, model@, score as int),
            final(self).wf(),
            match previous {
                Some(s) => score_of(old(self)@, model@) == Some(s as int),
                None => score_of(old(self)@, model@) is None,
            },
    {
        proof {
            lemma_with_score(self@, model@, score as int);
        }
        let ghost before = self@;
        let at = self.find(model.as_str());
        if at < self.entries.len() {
            let previous = self.entries[at].score;
            self.entries[at] = ModelScore { model, score };
            assert(self@ =~= with_score(before, model@, score as int));
            Some(previous)
        } else {
            self.entries.push(ModelScore { model, score });
            assert(self@ =~= with_score(before, model@, score as int));
            None
        }
    }

    /// Records one more attempt with `model`: a success adds 1 to its
    /// score, counted from 0 for a model without an entry; a failure makes
    /// its score `FAILED` whatever it was.
    pub fn record_outcome(&mut self, model: String, succeeded: bool)
        requires
            old(self).wf(),
            succeeded ==> score_of(old(self)@, model@) != Some(i32::MAX as int),
        ensures
            final(self)@ == recorded(old(self)@, model@, succeeded),
            final(self).wf(),
    {
        let score: i32 = if succeeded {
            match self.get(model.as_str()) {
                Some(s) => *s + 1,
                None => 1,
            }
        } else {
            FAILED
        };
        self.insert(model, score);
    }

    /// Gives each of `models` that has no entry one with score 0, in the
    /// order of `models`. The entries that were there keep their scores.
    pub fn ensure_known(&mut self, models: &Vec<String>)
        requires
            old(self).wf(),
        ensures
            final(self)@ == with_known(old(self)@, text_views(models@)),
            final(self).wf(),
    {
        let ghost names = text_views(models@);
        let mut i: usize = 0;
        assert(names.take(0) =~= Seq::<Seq<char>>::empty());
        while i < models.len()
            invariant
                i <= models.len(),
                names == text_views(models@),
                self.wf(),
                self@ == with_known(old(self)@, names.take(i as int)),
            decreases models.len() - i,
        {
            let ghost before = self@;
            proof {
                assert(names.take(i + 1).drop_last() =~= names.take(i as int));
                assert(names.take(i + 1).last() == models@[i as int]@);
                lemma_position_of(before, models@[i as int]@);
            }
            if !self.contains_key(models[i].as_str()) {
                let added = models[i].clone();
                proof {
                    lemma_with_score(before, added@, 0);
                }
                self.insert(added, 0);
                assert(self@ =~= before.push(ScoreEntry { model: models@[i as int]@, score: 0 }));
            }
            i = i + 1;
        }
        assert(names.take(models.len() as int) =~= names);
    }

    /// The models that are offered: those whose score is not `FAILED`, by
    /// descending score, and in the order of their entries among equal
    /// scores.
    pub fn available_models(&self) -> (models: Vec<String>)
        requires
            self.wf(),
        ensures
            is_available_list(self@, text_views(models@)),
    {
        let mut order: Vec<usize> = Vec::new();
        let mut i: usize = 0;
        while i < self.entries.len()
            invariant
                i <= self.entries@.len(),
                is_ranking_upto(self@, places(order@), i as int),
                forall|k: int| 0 <= k < order@.len() ==> #[trigger] order@[k] < i,
            decreases self.entries@.len() - i,
        {
            if self.entries[i].score != FAILED {
                let mut at: usize = order.len();
                while at > 0 && self.entries[order[at - 1]].score < self.entries[i].score
                    invariant
                        at <= order@.len(),
                        i < self.entries@.len(),
                        is_ranking_upto(self@, places(order@), i as int),
                        forall|k: int| 0 <= k < order@.len() ==> #[trigger] order@[k] < i,
                        forall|k: int|
                            at <= k < order@.len() ==> self@[#[trigger] places(order@)[k]].score
                                < self@[i as int].score,
                    decreases at,
                {
                    at = at - 1;
                }
                proof {
                    if at > 0 {
                        assert(self@[places(order@)[at - 1]].score >= self@[i as int].score);
                    }
                    lemma_rank_insert(self@, places(order@), i as int, at as int);
                    assert(places(order@.insert(at as int, i)) =~= places(order@).insert(
                        at as int,
                        i as int,
                    ));
                }
                order.insert(at, i);
            }
            i = i + 1;
        }
        let mut models: Vec<String> = Vec::new();
        let mut k: usize = 0;
        while k < order.len()
            invariant
                k <= order@.len(),
                models@.len() == k,
                is_ranking_upto(self@, places(order@), self.entries@.len() as int),
                forall|j: int| 0 <= j < order@.len() ==> #[trigger] order@[j] < self.entries@.len(),
                forall|j: int| 0 <= j < k ==> (#[trigger] models@[j])@ == self@[places(order@)[j]].model,
            decreases order@.len() - k,
        {
            models.push(self.entries[order[k]].model.clone());
            k = k + 1;
        }
        proof {
            let ranking = places(order@);
            assert(is_ranking(self@, ranking));
            assert(text_views(models@) =~= ranking.map_values(|i: int| self@[i].model));
        }
        models
    }
}

impl Clone for FrequencyMap {
    /// A copy with the same entries in the same order.
    fn clone(&self) -> (copy: Self)
        ensures
            copy@ == self@,
    {
        let mut entries: Vec<ModelScore> = Vec::new();
        let mut i: usize = 0;
        while i < self.entries.len()
            invariant
                i <= self.entries@.len(),
                entries@.len() == i,
                forall|j: int| 0 <= j < i ==> entries@[j] == self.entries@[j],
            decreases self.entries@.len() - i,
        {
            entries.push(self.entries[i].clone());
            i = i + 1;
        }
        let copy = FrequencyMap { entries };
        assert(copy@ =~= self@);
        copy
    }
}

} // verus!
