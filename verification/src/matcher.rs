//! The matcher: it computes, expression by expression and rule by rule,
//! the results that the semantics defines.

use vstd::prelude::*;
use vstd::utf8::*;
use crate::grammar::{rule_models, Action, Atom, Expr, ExprView, Rule};
use crate::input::Span;
use crate::memo::{hit_of, Memo};
use crate::semantics::{apply, rule_value, weight, weight_from, Hit, Key, Outcome, Scene};
use crate::text::{leaf, skip};
use crate::value::{lemma_list_model, models, Value, ValueView};
use crate::wellformed::find_rule;

verus! {

/// Every expression of a sequence weighs less than the sequence from any
/// index up to its own.
pub proof fn lemma_weight_item(items: Seq<ExprView>, i: int, k: int)
    requires
        0 <= i <= k < items.len(),
    ensures
        weight(items[k]) < weight_from(items, i),
    decreases k - i,
{
    if i < k {
        lemma_weight_item(items, i + 1, k);
    }
}

/// What the action `action` makes of `bound`.
pub fn apply_action<'a>(action: &Action, bound: &Value<'a>) -> (made: Value<'a>)
    ensures
        made@ == apply(action@, bound@),
    decreases action,
{
    match action {
        Action::Bound => bound.duplicate(),
        Action::Unit => Value::Unit,
        Action::Field(inner, index) => {
            let whole = apply_action(inner, bound);
            match &whole {
                Value::Tuple(parts) => {
                    proof {
                        lemma_list_model(*parts);
                    }
                    if *index < parts.len() {
                        parts[*index].duplicate()
                    } else {
                        Value::Unit
                    }
                },
                _ => Value::Unit,
            }
        },
        Action::Tuple(parts) => {
            let made = apply_actions(parts, bound);
            proof {
                lemma_list_model(made);
                assert(models(made@) =~= apply(action@, bound@)->Tuple_0);
            }
            Value::Tuple(made)
        },
    }
}

/// What each of the actions `parts` makes of `bound`.
pub fn apply_actions<'a>(parts: &Vec<Action>, bound: &Value<'a>) -> (made: Vec<Value<'a>>)
    ensures
        made.len() == parts.len(),
        forall|j: int| 0 <= j < parts.len() ==> (#[trigger] made[j])@ == apply(parts[j]@, bound@),
    decreases parts,
{
    let mut made: Vec<Value<'a>> = Vec::new();
    let mut i: usize = 0;
    while i < parts.len()
        invariant
            i <= parts.len(),
            made.len() == i,
            forall|j: int| 0 <= j < i ==> (#[trigger] made[j])@ == apply(parts[j]@, bound@),
        decreases parts.len() - i,
    {
        let part = apply_action(&parts[i], bound);
        made.push(part);
        i = i + 1;
    }
    made
}

/// One match invocation: a grammar, a whitespace set and a source text.
pub struct Session<'g, 'a> {
    pub rules: &'g Vec<Rule>,
    pub blanks: &'g Vec<char>,
    pub source: &'a str,
    pub bytes: &'a [u8],
}

impl<'g, 'a> Session<'g, 'a> {
    /// What the invocation works on, as the semantics speaks of it.
    pub open spec fn scene(&self) -> Scene {
        Scene {
            rules: rule_models(self.rules@),
            blanks: self.blanks@,
            text: self.source@,
            bytes: self.bytes@,
        }
    }

    /// Whether the bytes are those of the source text.
    pub open spec fn wf(&self) -> bool {
        self.bytes@ == encode_utf8(self.source@)
    }

    /// Whether `memo` can be matched with: it was made for this invocation
    /// and holds only what the invocation could have put there.
    pub open spec fn ready(&self, memo: &Memo<'a>) -> bool {
        &&& self.wf()
        &&& memo.frames(self.scene())
        &&& self.scene().fits(memo.table(self.scene()))
    }

    /// The value of rule number `rule` where its body yielded `body`.
    pub fn value_of(&self, rule: usize, body: &Value<'a>) -> (made: Value<'a>)
        requires
            rule < self.rules.len(),
        ensures
            made@ == rule_value(self.scene().rules[rule as int], body@),
    {
        match &self.rules[rule].action {
            Some(action) => apply_action(action, body),
            None => Value::Unit,
        }
    }

    /// The result of `e` at `at`.
    pub fn run(&self, e: &Expr, at: usize, atomic: bool, memo: &mut Memo<'a>) -> (found: Option<
        (usize, Value<'a>),
    >)
        requires
            self.ready(old(memo)),
            at <= self.bytes.len(),
        ensures
            self.ready(final(memo)),
            self.scene().run(e@, at as int, atomic, old(memo).table(self.scene())) == (Outcome {
                hit: hit_of(found),
                table: final(memo).table(self.scene()),
            }),
        decreases self.scene().room(old(memo).table(self.scene())), weight(e@), 0nat,
    {
        let ghost scene = self.scene();
        let ghost t0 = memo.table(scene);
        proof {
            scene.lemma_run(e@, at as int, atomic, t0);
        }
        match e {
            Expr::Alt(left, right) => {
                proof {
                    scene.lemma_run(left@, at as int, atomic, t0);
                }
                match self.run(left, at, atomic, memo) {
                    Some(hit) => Some(hit),
                    None => self.run(right, at, atomic, memo),
                }
            },
            Expr::Sequence(items) => {
                if items.len() == 1 {
                    proof {
                        lemma_weight_item(e@->Sequence_0, 0, 0);
                    }
                    self.run(&items[0], at, atomic, memo)
                } else {
                    self.run_sequence(items, at, atomic, memo)
                }
            },
            Expr::Repeat0(inner) => {
                let (end, got) = self.run_many(inner, at, atomic, memo);
                Some((end, Value::List(got)))
            },
            Expr::Repeat1(inner) => {
                let (end, got) = self.run_many(inner, at, atomic, memo);
                if got.len() > 0 {
                    Some((end, Value::List(got)))
                } else {
                    None
                }
            },
            Expr::Optional(inner) => {
                match self.run(inner, at, atomic, memo) {
                    Some((end, value)) => Some((end, Value::Opt(Some(Box::new(value))))),
                    None => Some((at, Value::Opt(None))),
                }
            },
            Expr::PosLookahead(inner) => {
                match self.run(inner, at, atomic, memo) {
                    Some(_) => Some((at, Value::Unit)),
                    None => None,
                }
            },
            Expr::NegLookahead(inner) => {
                match self.run(inner, at, atomic, memo) {
                    Some(_) => None,
                    None => Some((at, Value::Unit)),
                }
            },
            Expr::Atomic(inner) => self.run(inner, at, true, memo),
            Expr::SpanCapture(inner) => {
                proof {
                    scene.lemma_run(inner@, at as int, atomic, t0);
                }
                match self.run(inner, at, atomic, memo) {
                    Some((end, value)) => {
                        let span = Value::Span(Span::new(self.source, at, end));
                        let ghost inside = value@;
                        let mut parts: Vec<Value<'a>> = Vec::new();
                        parts.push(span);
                        parts.push(value);
                        proof {
                            lemma_list_model(parts);
                            assert(models(parts@) =~= seq![scene.span(at as int, end as int), inside]);
                        }
                        Some((end, Value::Tuple(parts)))
                    },
                    None => None,
                }
            },
            Expr::DelimitedList(item, separator) => {
                proof {
                    scene.lemma_run(item@, at as int, atomic, t0);
                }
                match self.run(item, at, atomic, memo) {
                    Some((end, value)) => {
                        let ghost first = value@;
                        let mut items: Vec<Value<'a>> = Vec::new();
                        items.push(value);
                        assert(models(items@) =~= seq![first]);
                        assert(models(Seq::<Value<'a>>::empty()) =~= Seq::<ValueView>::empty());
                        Some(self.run_listed(item, separator, end, atomic, memo, items))
                    },
                    None => None,
                }
            },
            Expr::Atom(atom) => {
                match atom {
                    Atom::Ident(name, _) => match find_rule(self.rules, name) {
                        Some(rule) => self.call(rule, at, atomic, memo),
                        None => None,
                    },
                    _ => match leaf(Ghost(scene), atom, self.bytes, at) {
                        Some(end) => Some((end, Value::Unit)),
                        None => None,
                    },
                }
            },
        }
    }

    /// The result of a sequence of two or more expressions, or of none.
    pub fn run_sequence(&self, items: &Vec<Expr>, at: usize, atomic: bool, memo: &mut Memo<'a>) -> (found:
        Option<(usize, Value<'a>)>)
        requires
            self.ready(old(memo)),
            at <= self.bytes.len(),
        ensures
            self.ready(final(memo)),
            self.scene().run_sequence(
                Expr::Sequence(*items)@->Sequence_0,
                0,
                at as int,
                atomic,
                old(memo).table(self.scene()),
            ) == (Outcome { hit: hit_of(found), table: final(memo).table(self.scene()) }),
        decreases
            self.scene().room(old(memo).table(self.scene())),
            weight_from(Expr::Sequence(*items)@->Sequence_0, 0),
            1nat,
    {
        let ghost scene = self.scene();
        let ghost t0 = memo.table(scene);
        let ghost views = Expr::Sequence(*items)@->Sequence_0;
        let mut end = at;
        let mut i: usize = 0;
        while i < items.len()
            invariant
                i <= items.len(),
                at <= end <= self.bytes.len(),
                scene == self.scene(),
                views == Expr::Sequence(*items)@->Sequence_0,
                t0 == old(memo).table(self.scene()),
                self.ready(memo),
                scene.room(memo.table(scene)) <= scene.room(t0),
                scene.run_sequence(views, 0, at as int, atomic, t0) == scene.run_sequence(
                    views,
                    i as int,
                    end as int,
                    atomic,
                    memo.table(scene),
                ),
            decreases items.len() - i,
        {
            let from = if i == 0 || atomic {
                end
            } else {
                skip(Ghost(scene), self.blanks, self.bytes, end)
            };
            proof {
                lemma_weight_item(views, 0, i as int);
                scene.lemma_run(views[i as int], from as int, atomic, memo.table(scene));
            }
            assert(views[i as int] == items[i as int]@);
            match self.run(&items[i], from, atomic, memo) {
                Some((after, _)) => {
                    end = after;
                    i = i + 1;
                },
                None => {
                    return None;
                },
            }
        }
        Some((end, Value::Unit))
    }

    /// The result of a repetition: where it ends and the values matched.
    pub fn run_many(&self, inner: &Expr, at: usize, atomic: bool, memo: &mut Memo<'a>) -> (found: (
        usize,
        Vec<Value<'a>>,
    ))
        requires
            self.ready(old(memo)),
            at <= self.bytes.len(),
        ensures
            self.ready(final(memo)),
            self.scene().run_many(
                inner@,
                at as int,
                true,
                atomic,
                old(memo).table(self.scene()),
                Seq::empty(),
            ) == (Outcome {
                hit: Some(Hit { end: found.0 as int, value: ValueView::List(models(found.1@)) }),
                table: final(memo).table(self.scene()),
            }),
            Value::List(found.1)@ == ValueView::List(models(found.1@)),
        decreases
            self.scene().room(old(memo).table(self.scene())),
            weight(inner@) + 1,
            self.scene().gap(at as int),
    {
        let ghost scene = self.scene();
        let ghost t0 = memo.table(scene);
        let mut got: Vec<Value<'a>> = Vec::new();
        let mut end = at;
        let mut first = true;
        assert(models(got@) =~= Seq::<ValueView>::empty());
        loop
            invariant_except_break
                scene.run_many(inner@, at as int, true, atomic, t0, Seq::empty())
                    == scene.run_many(
                    inner@,
                    end as int,
                    first,
                    atomic,
                    memo.table(scene),
                    models(got@),
                ),
            invariant
                at <= end <= self.bytes.len(),
                scene == self.scene(),
                t0 == old(memo).table(self.scene()),
                self.ready(memo),
                scene.room(memo.table(scene)) <= scene.room(t0),
            ensures
                self.ready(memo),
                scene.run_many(inner@, at as int, true, atomic, t0, Seq::empty()) == (Outcome {
                    hit: Some(Hit { end: end as int, value: ValueView::List(models(got@)) }),
                    table: memo.table(scene),
                }),
            decreases scene.gap(end as int),
        {
            let from = if first || atomic {
                end
            } else {
                skip(Ghost(scene), self.blanks, self.bytes, end)
            };
            proof {
                scene.lemma_run(inner@, from as int, atomic, memo.table(scene));
            }
            match self.run(inner, from, atomic, memo) {
                Some((after, value)) => {
                    let ghost before = models(got@);
                    let ghost one = value@;
                    got.push(value);
                    assert(models(got@) =~= before.push(one));
                    let moved = after > end;
                    end = after;
                    first = false;
                    if !moved {
                        break ;
                    }
                },
                None => {
                    break ;
                },
            }
        }
        proof {
            lemma_list_model(got);
        }
        (end, got)
    }

    /// The result of a delimited list whose first item, in `items`, ended
    /// at `at`.
    pub fn run_listed(
        &self,
        item: &Expr,
        separator: &Expr,
        at: usize,
        atomic: bool,
        memo: &mut Memo<'a>,
        items: Vec<Value<'a>>,
    ) -> (found: (usize, Value<'a>))
        requires
            self.ready(old(memo)),
            at <= self.bytes.len(),
        ensures
            self.ready(final(memo)),
            self.scene().run_listed(
                item@,
                separator@,
                at as int,
                atomic,
                old(memo).table(self.scene()),
                models(items@),
                Seq::empty(),
            ) == (Outcome {
                hit: hit_of(Some(found)),
                table: final(memo).table(self.scene()),
            }),
        decreases
            self.scene().room(old(memo).table(self.scene())),
            weight(item@) + weight(separator@) + 1,
            self.scene().gap(at as int),
    {
        let ghost scene = self.scene();
        let ghost t0 = memo.table(scene);
        let ghost given = models(items@);
        let mut items = items;
        let mut separators: Vec<Value<'a>> = Vec::new();
        let mut end = at;
        assert(models(separators@) =~= Seq::<ValueView>::empty());
        loop
            invariant_except_break
                scene.run_listed(item@, separator@, at as int, atomic, t0, given, Seq::empty())
                    == scene.run_listed(
                    item@,
                    separator@,
                    end as int,
                    atomic,
                    memo.table(scene),
                    models(items@),
                    models(separators@),
                ),
            invariant
                at <= end <= self.bytes.len(),
                scene == self.scene(),
                t0 == old(memo).table(self.scene()),
                self.ready(memo),
                scene.room(memo.table(scene)) <= scene.room(t0),
            ensures
                self.ready(memo),
                scene.run_listed(item@, separator@, at as int, atomic, t0, given, Seq::empty())
                    == (Outcome {
                    hit: Some(
                        Hit {
                            end: end as int,
                            value: Scene::listed(models(items@), models(separators@)),
                        },
                    ),
                    table: memo.table(scene),
                }),
            decreases scene.gap(end as int),
        {
            let from = if atomic {
                end
            } else {
                skip(Ghost(scene), self.blanks, self.bytes, end)
            };
            let ghost t1 = memo.table(scene);
            proof {
                scene.lemma_run(separator@, from as int, atomic, t1);
            }
            match self.run(separator, from, atomic, memo) {
                Some((middle, mark)) => {
                    let onward = if atomic {
                        middle
                    } else {
                        skip(Ghost(scene), self.blanks, self.bytes, middle)
                    };
                    proof {
                        scene.lemma_run(item@, onward as int, atomic, memo.table(scene));
                    }
                    match self.run(item, onward, atomic, memo) {
                        Some((after, value)) => {
                            let ghost items_before = models(items@);
                            let ghost separators_before = models(separators@);
                            let ghost one = value@;
                            let ghost two = mark@;
                            items.push(value);
                            separators.push(mark);
                            assert(models(items@) =~= items_before.push(one));
                            assert(models(separators@) =~= separators_before.push(two));
                            let moved = after > end;
                            end = after;
                            if !moved {
                                break ;
                            }
                        },
                        None => {
                            break ;
                        },
                    }
                },
                None => {
                    break ;
                },
            }
        }
        let ghost left = models(items@);
        let ghost right = models(separators@);
        let first = Value::List(items);
        let second = Value::List(separators);
        let mut pair: Vec<Value<'a>> = Vec::new();
        pair.push(first);
        pair.push(second);
        proof {
            lemma_list_model(items);
            lemma_list_model(separators);
            lemma_list_model(pair);
            assert(models(pair@) =~= seq![ValueView::List(left), ValueView::List(right)]);
        }
        (end, Value::Tuple(pair))
    }

    /// The result of rule number `rule` at `at`.
    pub fn call(&self, rule: usize, at: usize, atomic: bool, memo: &mut Memo<'a>) -> (found: Option<
        (usize, Value<'a>),
    >)
        requires
            self.ready(old(memo)),
            at <= self.bytes.len(),
            rule < self.rules.len(),
        ensures
            self.ready(final(memo)),
            self.scene().call(rule as int, at as int, atomic, old(memo).table(self.scene()))
                == (Outcome { hit: hit_of(found), table: final(memo).table(self.scene()) }),
        decreases self.scene().room(old(memo).table(self.scene())), 0nat, 0nat,
    {
        let ghost scene = self.scene();
        let ghost t0 = memo.table(scene);
        let ghost key = Key { rule: rule as int, start: at as int, atomic };
        match memo.lookup(Ghost(scene), rule, at, atomic) {
            Some(entry) => {
                return entry;
            },
            None => {},
        }
        memo.store(Ghost(scene), rule, at, atomic, None);
        proof {
            scene.lemma_room_taken(t0, key, None);
            assert(scene.fits(memo.table(scene)));
        }
        let mut best: Option<(usize, Value<'a>)> = None;
        loop
            invariant
                scene == self.scene(),
                key == (Key { rule: rule as int, start: at as int, atomic }),
                rule < self.rules.len(),
                at <= self.bytes.len(),
                t0 == old(memo).table(self.scene()),
                self.ready(memo),
                memo.table(scene).dom().contains(key),
                scene.room(memo.table(scene)) < scene.room(t0),
                match best {
                    Some((end, _)) => at <= end <= self.bytes.len(),
                    None => true,
                },
                scene.call(rule as int, at as int, atomic, t0) == scene.grow(
                    rule as int,
                    at as int,
                    atomic,
                    hit_of(best),
                    memo.table(scene),
                ),
            decreases scene.slack(hit_of(best), at as int),
        {
            let ghost t1 = memo.table(scene);
            proof {
                scene.lemma_run(scene.rules[rule as int].body, at as int, atomic, t1);
            }
            let found = match self.run(&self.rules[rule].body, at, atomic, memo) {
                Some((end, value)) => Some((end, self.value_of(rule, &value))),
                None => None,
            };
            let ghost t2 = memo.table(scene);
            let better = match &found {
                Some((end, _)) => match &best {
                    Some((seed, _)) => *seed < *end,
                    None => true,
                },
                None => false,
            };
            if better {
                let seed = match &found {
                    Some((end, value)) => Some((*end, value.duplicate())),
                    None => None,
                };
                memo.store(Ghost(scene), rule, at, atomic, seed);
                proof {
                    assert(Scene::extends(t2, memo.table(scene)));
                    scene.lemma_room_shrinks(t2, memo.table(scene));
                    assert(scene.fits(memo.table(scene)));
                    assert(scene.better(hit_of(found), hit_of(best), at as int));
                }
                best = found;
            } else {
                let kept = match &best {
                    Some((end, value)) => Some((*end, value.duplicate())),
                    None => None,
                };
                memo.store(Ghost(scene), rule, at, atomic, kept);
                proof {
                    assert(scene.fits(memo.table(scene)));
                    assert(!scene.better(hit_of(found), hit_of(best), at as int));
                }
                return best;
            }
        }
    }
}

} // verus!
