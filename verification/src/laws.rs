//! What holds of matching, whatever the grammar and the text.

use vstd::prelude::*;
use crate::agreement::settled;
use crate::grammar::ExprView;
use crate::progress::lemma_find_from;
use crate::semantics::{find, Hit, Key, Outcome, Scene, Table};
use crate::typing::{all_typed, declared, has_type};
use crate::value::ValueView;

verus! {

impl Scene {
    /// Whether the bytes from `at` up to `end` are whitespace characters,
    /// one after the other.
    pub open spec fn blank_run(self, at: int, end: int) -> bool
        decreases self.len() - at,
    {
        if at == end {
            true
        } else {
            self.blank_at(at) && self.blank_run(at + self.scalar_at(at).unwrap().1, end)
        }
    }

    /// A match whose value is replaced by unit.
    pub open spec fn unit_hit(hit: Option<Hit>) -> Option<Hit> {
        match hit {
            Some(found) => Some(Hit { end: found.end, value: ValueView::Unit }),
            None => None,
        }
    }
}

/// Skipping whitespace passes over whitespace characters only, and stops
/// at the first offset at which none begins: it skips exactly the longest
/// run of whitespace.
pub proof fn law_skip_is_maximal(scene: Scene, at: int)
    requires
        0 <= at <= scene.len(),
    ensures
        at <= scene.skip(at) <= scene.len(),
        scene.blank_run(at, scene.skip(at)),
        !scene.blank_at(scene.skip(at)),
    decreases scene.len() - at,
{
    if scene.blank_at(at) {
        law_skip_is_maximal(scene, at + scene.scalar_at(at).unwrap().1);
    }
}

/// A match never ends before the offset it began at, nor beyond the text,
/// and no attempt takes an entry out of the memo.
pub proof fn law_matches_move_forward(scene: Scene, e: ExprView, at: int, atomic: bool, t: Table)
    requires
        scene.fits(t),
        0 <= at <= scene.len(),
    ensures
        match scene.run(e, at, atomic, t).hit {
            Some(hit) => at <= hit.end <= scene.len(),
            None => true,
        },
        scene.fits(scene.run(e, at, atomic, t).table),
        Scene::extends(t, scene.run(e, at, atomic, t).table),
{
    scene.lemma_run(e, at, atomic, t);
}

/// Where an expression fails, nothing has been consumed: an optional
/// expression is absent at the offset of the attempt, a negative lookahead
/// holds there, a repetition is empty there, and the right side of an
/// alternation is tried there.
pub proof fn law_failure_consumes_nothing(
    scene: Scene,
    e: ExprView,
    other: ExprView,
    at: int,
    atomic: bool,
    t: Table,
)
    requires
        scene.fits(t),
        0 <= at <= scene.len(),
        scene.run(e, at, atomic, t).hit is None,
    ensures
        scene.run(ExprView::Optional(Box::new(e)), at, atomic, t).hit == Some(
            Hit { end: at, value: ValueView::Opt(None) },
        ),
        scene.run(ExprView::NegLookahead(Box::new(e)), at, atomic, t).hit == Some(
            Hit { end: at, value: ValueView::Unit },
        ),
        scene.run(ExprView::PosLookahead(Box::new(e)), at, atomic, t).hit is None,
        scene.run(ExprView::SpanCapture(Box::new(e)), at, atomic, t).hit is None,
        scene.run(ExprView::Repeat0(Box::new(e)), at, atomic, t).hit == Some(
            Hit { end: at, value: ValueView::List(Seq::empty()) },
        ),
        scene.run(ExprView::Alt(Box::new(e), Box::new(other)), at, atomic, t) == scene.run(
            other,
            at,
            atomic,
            scene.run(e, at, atomic, t).table,
        ),
{
    scene.lemma_run(e, at, atomic, t);
    law_repeat0_of_failure(scene, e, at, atomic, t);
}

/// An alternation is its left side wherever that matches; only where the
/// left side fails is it its right side, tried at the same offset, with
/// the memo as the left side left it.
pub proof fn law_alt_is_ordered(
    scene: Scene,
    left: ExprView,
    right: ExprView,
    at: int,
    atomic: bool,
    t: Table,
)
    requires
        scene.fits(t),
        0 <= at <= scene.len(),
    ensures
        scene.run(ExprView::Alt(Box::new(left), Box::new(right)), at, atomic, t) == (if scene.run(
            left,
            at,
            atomic,
            t,
        ).hit is Some {
            scene.run(left, at, atomic, t)
        } else {
            scene.run(right, at, atomic, scene.run(left, at, atomic, t).table)
        }),
{
    scene.lemma_run(left, at, atomic, t);
}

/// A repetition of zero or more of an expression that fails matches
/// nothing: it ends where it began, with an empty list.
pub proof fn law_repeat0_of_failure(scene: Scene, inner: ExprView, at: int, atomic: bool, t: Table)
    requires
        scene.run(inner, at, atomic, t).hit is None,
    ensures
        scene.run(ExprView::Repeat0(Box::new(inner)), at, atomic, t) == (Outcome {
            hit: Some(Hit { end: at, value: ValueView::List(Seq::empty()) }),
            table: scene.run(inner, at, atomic, t).table,
        }),
{
    let many = scene.run_many(inner, at, true, atomic, t, Seq::empty());
    assert(many == (Outcome {
        hit: Some(Hit { end: at, value: ValueView::List(Seq::empty()) }),
        table: scene.run(inner, at, atomic, t).table,
    }));
}

/// A repetition of one or more of an expression that fails, fails.
pub proof fn law_repeat1_of_failure(scene: Scene, inner: ExprView, at: int, atomic: bool, t: Table)
    requires
        scene.run(inner, at, atomic, t).hit is None,
    ensures
        scene.run(ExprView::Repeat1(Box::new(inner)), at, atomic, t) == (Outcome {
            hit: None,
            table: scene.run(inner, at, atomic, t).table,
        }),
{
    let many = scene.run_many(inner, at, true, atomic, t, Seq::empty());
    assert(many == (Outcome {
        hit: Some(Hit { end: at, value: ValueView::List(Seq::empty()) }),
        table: scene.run(inner, at, atomic, t).table,
    }));
}

/// A repetition never fails if it may be empty, and one that may not be
/// empty fails only where its first attempt fails.
pub proof fn law_repeat_succeeds(scene: Scene, inner: ExprView, at: int, atomic: bool, t: Table)
    requires
        scene.fits(t),
        0 <= at <= scene.len(),
    ensures
        scene.run(ExprView::Repeat0(Box::new(inner)), at, atomic, t).hit is Some,
        scene.run(ExprView::Repeat1(Box::new(inner)), at, atomic, t).hit is Some <==> scene.run(
            inner,
            at,
            atomic,
            t,
        ).hit is Some,
{
    scene.lemma_run(inner, at, atomic, t);
    scene.lemma_run_many(inner, at, true, atomic, t, Seq::empty());
    let one = scene.run(inner, at, atomic, t);
    if let Some(hit) = one.hit {
        if at < hit.end {
            lemma_many_keeps(scene, inner, hit.end, false, atomic, one.table, seq![hit.value]);
        }
    }
}

/// A repetition of which something has been matched yields a list that is
/// not empty.
proof fn lemma_many_keeps(
    scene: Scene,
    inner: ExprView,
    at: int,
    first: bool,
    atomic: bool,
    t: Table,
    got: Seq<ValueView>,
)
    requires
        scene.fits(t),
        0 <= at <= scene.len(),
        got.len() > 0,
    ensures
        match scene.run_many(inner, at, first, atomic, t, got).hit {
            Some(Hit { end, value: ValueView::List(values) }) => values.len() > 0,
            _ => false,
        },
    decreases scene.gap(at),
{
    scene.lemma_skip_bounds(at);
    let from = if first || atomic {
        at
    } else {
        scene.skip(at)
    };
    scene.lemma_run(inner, from, atomic, t);
    let one = scene.run(inner, from, atomic, t);
    if let Some(hit) = one.hit {
        if at < hit.end {
            lemma_many_keeps(scene, inner, hit.end, false, atomic, one.table, got.push(hit.value));
        }
    }
}

/// Between two expressions of a sequence exactly the whitespace that
/// [`Scene::skip`] passes over is skipped; in an atomic sequence none is.
/// None is skipped before the first expression, and what the last one
/// leaves is left. The expression at index `i`, the ones before it having
/// ended at `at`, is tried at `at` where it is the first or the sequence is
/// atomic, and else at `skip(at)`; the rest of the sequence goes on from
/// where it ended.
pub proof fn law_sequence_skips_between(
    scene: Scene,
    items: Seq<ExprView>,
    i: int,
    at: int,
    atomic: bool,
    t: Table,
)
    requires
        scene.fits(t),
        0 <= at <= scene.len(),
        0 <= i < items.len(),
    ensures
        ({
            let from = if i == 0 || atomic {
                at
            } else {
                scene.skip(at)
            };
            let one = scene.run(items[i], from, atomic, t);
            scene.run_sequence(items, i, at, atomic, t) == (match one.hit {
                Some(hit) => scene.run_sequence(items, i + 1, hit.end, atomic, one.table),
                None => one,
            })
        }),
        scene.run_sequence(items, items.len() as int, at, atomic, t) == (Outcome {
            hit: Some(Hit { end: at, value: ValueView::Unit }),
            table: t,
        }),
        items.len() != 1 ==> scene.run(ExprView::Sequence(items), at, atomic, t)
            == scene.run_sequence(items, 0, at, atomic, t),
{
    scene.lemma_skip_bounds(at);
    let from = if i == 0 || atomic {
        at
    } else {
        scene.skip(at)
    };
    scene.lemma_run(items[i], from, atomic, t);
}

/// A sequence of two expressions of which the first matches: the second is
/// tried behind the whitespace that follows the first, and in an atomic
/// sequence directly behind the first. The sequence ends where the second
/// ends and fails where the second fails.
pub proof fn law_pair_skips_between(
    scene: Scene,
    first: ExprView,
    second: ExprView,
    at: int,
    atomic: bool,
    t: Table,
)
    requires
        scene.fits(t),
        0 <= at <= scene.len(),
        scene.run(first, at, atomic, t).hit is Some,
    ensures
        ({
            let one = scene.run(first, at, atomic, t);
            let from = if atomic {
                one.hit.unwrap().end
            } else {
                scene.skip(one.hit.unwrap().end)
            };
            let two = scene.run(second, from, atomic, one.table);
            scene.run(ExprView::Sequence(seq![first, second]), at, atomic, t) == (Outcome {
                hit: Scene::unit_hit(two.hit),
                table: two.table,
            })
        }),
{
    let items = seq![first, second];
    scene.lemma_run(first, at, atomic, t);
    let one = scene.run(first, at, atomic, t);
    let middle = one.hit.unwrap().end;
    scene.lemma_skip_bounds(middle);
    let from = if atomic {
        middle
    } else {
        scene.skip(middle)
    };
    scene.lemma_run(second, from, atomic, one.table);
    let two = scene.run(second, from, atomic, one.table);
    assert(items[0] == first);
    assert(items[1] == second);
    assert(scene.run_sequence(items, 0, at, atomic, t) == scene.run_sequence(
        items,
        1,
        middle,
        atomic,
        one.table,
    ));
    if let Some(hit) = two.hit {
        assert(scene.run_sequence(items, 1, middle, atomic, one.table) == scene.run_sequence(
            items,
            2,
            hit.end,
            atomic,
            two.table,
        ));
    }
}

/// An atomic expression is its inner expression with whitespace skipping
/// off, whatever the context it stands in; inside it, skipping stays off.
pub proof fn law_atomic_turns_skipping_off(
    scene: Scene,
    inner: ExprView,
    at: int,
    atomic: bool,
    t: Table,
)
    ensures
        scene.run(ExprView::Atomic(Box::new(inner)), at, atomic, t) == scene.run(inner, at, true, t),
        scene.run(ExprView::Atomic(Box::new(ExprView::Atomic(Box::new(inner)))), at, atomic, t)
            == scene.run(inner, at, true, t),
{
    assert(scene.run(ExprView::Atomic(Box::new(inner)), at, true, t) == scene.run(
        inner,
        at,
        true,
        t,
    ));
}

/// A captured expression matches exactly where the expression does. The
/// value is the span from the offset at which the expression was tried to
/// the offset at which it ended, and the value of the expression; whitespace
/// skipped before the expression was tried is not in the span.
pub proof fn law_span_is_exact(scene: Scene, inner: ExprView, at: int, atomic: bool, t: Table)
    ensures
        ({
            let inside = scene.run(inner, at, atomic, t);
            scene.run(ExprView::SpanCapture(Box::new(inner)), at, atomic, t) == (Outcome {
                hit: match inside.hit {
                    Some(hit) => Some(
                        Hit {
                            end: hit.end,
                            value: ValueView::Tuple(seq![scene.span(at, hit.end), hit.value]),
                        },
                    ),
                    None => None,
                },
                table: inside.table,
            })
        }),
{
}

/// A lookahead consumes nothing: where it holds it ends at the offset it
/// was tried at, with the unit value.
pub proof fn law_lookahead_consumes_nothing(
    scene: Scene,
    inner: ExprView,
    at: int,
    atomic: bool,
    t: Table,
)
    ensures
        scene.run(ExprView::PosLookahead(Box::new(inner)), at, atomic, t).hit == (if scene.run(
            inner,
            at,
            atomic,
            t,
        ).hit is Some {
            Some(Hit { end: at, value: ValueView::Unit })
        } else {
            None
        }),
        scene.run(ExprView::NegLookahead(Box::new(inner)), at, atomic, t).hit == (if scene.run(
            inner,
            at,
            atomic,
            t,
        ).hit is Some {
            None
        } else {
            Some(Hit { end: at, value: ValueView::Unit })
        }),
{
}

/// The value of a delimited list that matches is a list of items and a
/// list of separators, with one item more than separators.
pub proof fn law_list_has_one_more_item(
    scene: Scene,
    item: ExprView,
    separator: ExprView,
    at: int,
    atomic: bool,
    t: Table,
)
    requires
        scene.fits(t),
        0 <= at <= scene.len(),
    ensures
        match scene.run(
            ExprView::DelimitedList(Box::new(item), Box::new(separator)),
            at,
            atomic,
            t,
        ).hit {
            Some(hit) => exists|items: Seq<ValueView>, separators: Seq<ValueView>|
                hit.value == #[trigger] Scene::listed(items, separators) && items.len()
                    == separators.len() + 1,
            None => scene.run(item, at, atomic, t).hit is None,
        },
{
    scene.lemma_run(item, at, atomic, t);
    let first = scene.run(item, at, atomic, t);
    if let Some(hit) = first.hit {
        lemma_listed_lengths(
            scene,
            item,
            separator,
            hit.end,
            atomic,
            first.table,
            seq![hit.value],
            Seq::empty(),
        );
    }
}

/// The rest of a delimited list adds as many items as separators.
proof fn lemma_listed_lengths(
    scene: Scene,
    item: ExprView,
    separator: ExprView,
    at: int,
    atomic: bool,
    t: Table,
    items: Seq<ValueView>,
    separators: Seq<ValueView>,
)
    requires
        scene.fits(t),
        0 <= at <= scene.len(),
        items.len() == separators.len() + 1,
    ensures
        match scene.run_listed(item, separator, at, atomic, t, items, separators).hit {
            Some(hit) => exists|all: Seq<ValueView>, between: Seq<ValueView>|
                hit.value == #[trigger] Scene::listed(all, between) && all.len() == between.len()
                    + 1,
            None => false,
        },
    decreases scene.gap(at),
{
    scene.lemma_skip_bounds(at);
    let from = if atomic {
        at
    } else {
        scene.skip(at)
    };
    scene.lemma_run(separator, from, atomic, t);
    let between = scene.run(separator, from, atomic, t);
    if let Some(mark) = between.hit {
        scene.lemma_skip_bounds(mark.end);
        let onward = if atomic {
            mark.end
        } else {
            scene.skip(mark.end)
        };
        scene.lemma_run(item, onward, atomic, between.table);
        let next = scene.run(item, onward, atomic, between.table);
        if let Some(hit) = next.hit {
            if at < hit.end {
                lemma_listed_lengths(
                    scene,
                    item,
                    separator,
                    hit.end,
                    atomic,
                    next.table,
                    items.push(hit.value),
                    separators.push(mark.value),
                );
            }
        }
    }
}

/// A rule whose entry is in the memo is not matched again: the entry is
/// its result, and the memo stays as it is.
pub proof fn law_memo_answers(scene: Scene, rule: int, at: int, atomic: bool, t: Table)
    requires
        0 <= rule < scene.rules.len(),
        0 <= at <= scene.len(),
        t.dom().contains(Key { rule, start: at, atomic }),
    ensures
        scene.call(rule, at, atomic, t) == (Outcome {
            hit: t[Key { rule, start: at, atomic }],
            table: t,
        }),
{
}

/// A rule that has been called has its result in the memo, so that every
/// later call of it at the same offset yields the same result.
pub proof fn law_call_commits(scene: Scene, rule: int, at: int, atomic: bool, t: Table)
    requires
        scene.fits(t),
        0 <= rule < scene.rules.len(),
        0 <= at <= scene.len(),
    ensures
        ({
            let called = scene.call(rule, at, atomic, t);
            scene.call(rule, at, atomic, called.table) == called
        }),
{
    let key = Key { rule, start: at, atomic };
    if !t.dom().contains(key) {
        let seeded = t.insert(key, None);
        scene.lemma_room_taken(t, key, None);
        assert(scene.fits(seeded));
        lemma_grow_commits(scene, rule, at, atomic, None, seeded);
    }
}

/// Growing a rule ends with its result as the entry of the rule.
proof fn lemma_grow_commits(
    scene: Scene,
    rule: int,
    at: int,
    atomic: bool,
    best: Option<Hit>,
    t: Table,
)
    requires
        scene.fits(t),
        0 <= rule < scene.rules.len(),
        0 <= at <= scene.len(),
        t.dom().contains(Key { rule, start: at, atomic }),
        match best {
            Some(seed) => at <= seed.end <= scene.len(),
            None => true,
        },
    ensures
        ({
            let grown = scene.grow(rule, at, atomic, best, t);
            let key = Key { rule, start: at, atomic };
            grown.table.dom().contains(key) && grown.table[key] == grown.hit
        }),
    decreases scene.slack(best, at),
{
    let key = Key { rule, start: at, atomic };
    scene.lemma_run(scene.rules[rule].body, at, atomic, t);
    let body = scene.run(scene.rules[rule].body, at, atomic, t);
    let found = match body.hit {
        Some(hit) => Some(
            Hit { end: hit.end, value: crate::semantics::rule_value(scene.rules[rule], hit.value) },
        ),
        None => None,
    };
    let seeded = body.table.insert(key, found);
    assert(Scene::extends(body.table, seeded));
    scene.lemma_room_shrinks(body.table, seeded);
    scene.lemma_room_shrinks(seeded, body.table);
    if scene.better(found, best, at) {
        assert(scene.fits(seeded));
        lemma_grow_commits(scene, rule, at, atomic, found, seeded);
    }
}

/// Where every rule keeps to the type it declares, a rule that matches
/// yields a value of its declared type, and ends between the offset it
/// was tried at and the end of the text.
pub proof fn law_values_are_typed(scene: Scene, name: Seq<char>, at: int)
    requires
        all_typed(scene.rules),
    ensures
        match (scene.answer(name, at), find(scene.rules, name)) {
            (Some(hit), Some(rule)) => has_type(hit.value, declared(scene.rules[rule])) && 0 <= at
                <= hit.end <= scene.len(),
            (Some(_), None) => false,
            _ => true,
        },
{
    lemma_find_from(scene.rules, name, 0);
    if let Some(rule) = find(scene.rules, name) {
        if 0 <= at <= scene.len() {
            let empty = Map::<Key, Option<Hit>>::empty();
            scene.lemma_call(rule, at, false, empty);
            scene.lemma_call_typed(rule, at, false, empty);
        }
    }
}

/// A rule whose body fails on the failing seed fails, and failure is
/// committed as its result: a rule that calls itself before anything is
/// consumed and has no other way to match simply does not match.
pub proof fn law_failing_seed_fails(scene: Scene, rule: int, at: int, atomic: bool, t: Table)
    requires
        scene.fits(t),
        0 <= rule < scene.rules.len(),
        0 <= at <= scene.len(),
        !t.dom().contains(Key { rule, start: at, atomic }),
        scene.run(
            scene.rules[rule].body,
            at,
            atomic,
            t.insert(Key { rule, start: at, atomic }, None),
        ).hit is None,
    ensures
        scene.call(rule, at, atomic, t).hit is None,
        scene.call(rule, at, atomic, t).table[Key { rule, start: at, atomic }] is None,
{
    let key = Key { rule, start: at, atomic };
    let seeded = t.insert(key, None);
    scene.lemma_room_taken(t, key, None);
    assert(scene.call(rule, at, atomic, t) == scene.grow(rule, at, atomic, None, seeded));
}

/// A round of growing that betters the seed ends further on than the seed,
/// so a rule is grown at most once for every byte left in the text, and
/// once more.
pub proof fn law_growing_ends(scene: Scene, found: Option<Hit>, best: Option<Hit>, at: int)
    requires
        scene.better(found, best, at),
    ensures
        scene.slack(found, at) < scene.slack(best, at),
        scene.slack(best, at) <= scene.len() - at + 1,
{
}

/// Wherever plain recursive descent ends, the rule yields what plain
/// recursive descent yields: the memo changes no result, and a seed is
/// grown to something else only where a rule calls itself before anything
/// is consumed.
pub proof fn law_agrees_with_plain_descent(scene: Scene, name: Seq<char>, at: int, depth: nat)
    requires
        scene.descend_from(name, at, depth) !is Unended,
    ensures
        settled(scene.answer(name, at)) == scene.descend_from(name, at, depth),
{
    lemma_find_from(scene.rules, name, 0);
    if let Some(rule) = find(scene.rules, name) {
        if 0 <= at <= scene.len() {
            let empty = Map::<Key, Option<Hit>>::empty();
            scene.lemma_call_agrees(rule, at, false, empty, Set::empty(), depth, depth as int, depth);
        }
    }
}

} // verus!
