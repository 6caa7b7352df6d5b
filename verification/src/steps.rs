//! The steps that bring the options of a game up to date.
//!
//! A step applies rules, which leave one result and no other; or it draws an
//! option that is still open, which is chance; or it takes a member out of
//! an option that holds a JSON object, which is written anew by `serde_json`.
//! What a step may come to is therefore said as a relation between the run
//! before it and the run after it.

use crate::comments::texts;
use crate::json::{has_member, members_note, members_under, rewritten, take_member};
use crate::options::is_live;
use crate::rules::{applied_all, apply_all, run_of, take_note, Outcome, Rule, Run};
use crate::scalar::parsed_scalar;
use crate::select::{can_draw, resolve_weighted_option, DrawError};
use crate::value::{
    has_key, lemma_position, lemma_with_value, lookup, with_value, Mapping, Value, ValueView,
};
use vstd::prelude::*;

verus! {

/// One step on the options of a game.
pub enum Step {
    /// Apply the rules, one after the other.
    Apply { rules: Vec<Rule> },
    /// Draw the option now, and put what was drawn in its place.
    Resolve { option: String },
    /// Take `member` out of the JSON object that the text under `option`
    /// holds, and take the note on the members that are left. Where the
    /// object cannot be written without the member, the option goes, and the
    /// user is told `before`, the player's name and `after`.
    WithoutMember { option: String, member: String, before: String, after: String },
}

/// Whether `after` is what a draw may leave of `before`: the distribution
/// under `key` can be drawn from, and one of its candidates with a weight
/// above zero stands in its place. An option that is a plain value, or is
/// not set, stays as it is.
pub open spec fn resolved(
    before: Seq<(ValueView, ValueView)>,
    key: ValueView,
    after: Seq<(ValueView, ValueView)>,
) -> bool {
    match lookup(before, key) {
        Some(ValueView::Mapping(entries)) => can_draw(entries) && exists|i: int|
            0 <= i < entries.len() && is_live(#[trigger] entries[i]) && after == with_value(
                before,
                key,
                entries[i].0,
            ),
        _ => after == before,
    }
}

/// Whether the option under `key` is a distribution that cannot be drawn
/// from.
pub open spec fn stuck(entries: Seq<(ValueView, ValueView)>, key: ValueView) -> bool {
    match lookup(entries, key) {
        Some(ValueView::Mapping(candidates)) => !can_draw(candidates),
        _ => false,
    }
}

/// The run after a member was taken out of the object under `option`, where
/// `written` is what writing the object anew gave.
pub open spec fn member_taken(
    run: Run,
    name: Seq<char>,
    option: Seq<char>,
    member: Seq<char>,
    before: Seq<char>,
    after: Seq<char>,
    written: Option<Seq<char>>,
) -> Run {
    Run {
        entries: rewritten(run.entries, parsed_scalar(option), written),
        notes: run.notes.push(
            members_note(option, members_under(run.entries, parsed_scalar(option)), member),
        ),
        messages: if written is None {
            run.messages.push(before + name + after)
        } else {
            run.messages
        },
    }
}

/// Whether `next` is what `step` may leave of `run`.
pub open spec fn stepped(run: Run, name: Seq<char>, step: Step, next: Run) -> bool {
    match step {
        Step::Apply { rules } => next == applied_all(run, name, rules, rules@.len() as int),
        Step::Resolve { option } => next.notes == run.notes && next.messages == run.messages
            && resolved(run.entries, parsed_scalar(option@), next.entries),
        Step::WithoutMember { option, member, before, after } => if has_member(
            run.entries,
            parsed_scalar(option@),
            member@,
        ) {
            exists|written: Option<Seq<char>>|
                next == #[trigger] member_taken(
                    run,
                    name,
                    option@,
                    member@,
                    before@,
                    after@,
                    written,
                )
        } else {
            next == Run {
                notes: run.notes.push(
                    members_note(
                        option@,
                        members_under(run.entries, parsed_scalar(option@)),
                        member@,
                    ),
                ),
                ..run
            }
        },
    }
}

/// Whether `step` cannot be taken from `run`: it is to draw an option that
/// cannot be drawn from.
pub open spec fn fails(run: Run, step: Step) -> bool {
    match step {
        Step::Resolve { option } => stuck(run.entries, parsed_scalar(option@)),
        _ => false,
    }
}

/// Whether `next` is what the first `n` of `steps` may leave of `run`, one
/// after the other.
pub open spec fn stepped_all(
    run: Run,
    name: Seq<char>,
    steps: Seq<Step>,
    n: int,
    next: Run,
) -> bool
    decreases n,
{
    if n <= 0 || n > steps.len() {
        next == run
    } else {
        exists|mid: Run|
            stepped_all(run, name, steps, n - 1, mid) && #[trigger] stepped(
                mid,
                name,
                steps[n - 1],
                next,
            )
    }
}

/// One more step that can be taken makes the run one step longer.
pub proof fn lemma_one_more_step(
    run: Run,
    name: Seq<char>,
    steps: Seq<Step>,
    n: int,
    mid: Run,
    next: Run,
)
    requires
        0 <= n < steps.len(),
        stepped_all(run, name, steps, n, mid),
        stepped(mid, name, steps[n], next),
    ensures
        stepped_all(run, name, steps, n + 1, next),
{
    assert(steps[n + 1 - 1] == steps[n]);
    assert(stepped_all(run, name, steps, n + 1 - 1, mid) && stepped(
        mid,
        name,
        steps[n + 1 - 1],
        next,
    ));
}

fn tell_loss(out: &mut Outcome, name: &str, before: &str, after: &str)
    ensures
        final(out).notes == old(out).notes,
        texts(final(out).messages@) == texts(old(out).messages@).push(before@ + name@ + after@),
{
    let mut m = String::from_str(before);
    m.append(name);
    m.append(after);
    let ghost told = texts(out.messages@);
    out.messages.push(m);
    assert(texts(out.messages@) =~= told.push(m@));
}

/// Takes one step: see `stepped`. A draw that cannot be made is an error,
/// and leaves everything as it is.
pub fn take_step(hash: &mut Mapping, out: &mut Outcome, name: &str, step: &Step) -> (r: Result<
    (),
    DrawError,
>)
    ensures
        match r {
            Ok(u) => stepped(
                run_of(*old(hash), *old(out)),
                name@,
                *step,
                run_of(*final(hash), *final(out)),
            ) && !fails(run_of(*old(hash), *old(out)), *step),
            Err(e) => fails(run_of(*old(hash), *old(out)), *step) && run_of(
                *final(hash),
                *final(out),
            ) == run_of(*old(hash), *old(out)),
        },
{
    match step {
        Step::Apply { rules } => {
            apply_all(hash, out, name, rules);
            Ok(())
        },
        Step::Resolve { option } => resolve_weighted_option(hash, option.as_str()),
        Step::WithoutMember { option, member, before, after } => {
            let ghost run = run_of(*hash, *out);
            let taken = take_member(hash, option.as_str(), member.as_str());
            take_note(out, taken.note);
            if taken.lost {
                tell_loss(out, name, before.as_str(), after.as_str());
            }
            proof {
                if has_member(run.entries, parsed_scalar(option@), member@) {
                    let written = choose|written: Option<Seq<char>>|
                        taken.lost == (written is None) && hash@ == #[trigger] rewritten(
                            run.entries,
                            parsed_scalar(option@),
                            written,
                        );
                    assert(run_of(*hash, *out) == member_taken(
                        run,
                        name@,
                        option@,
                        member@,
                        before@,
                        after@,
                        written,
                    ));
                }
            }
            Ok(())
        },
    }
}

/// Takes `steps`, one after the other: see `stepped_all`. The first draw
/// that cannot be made is an error, and ends the run where it stands.
pub fn take_steps(hash: &mut Mapping, out: &mut Outcome, name: &str, steps: &Vec<Step>) -> (r:
    Result<(), DrawError>)
    ensures
        match r {
            Ok(u) => stepped_all(
                run_of(*old(hash), *old(out)),
                name@,
                steps@,
                steps@.len() as int,
                run_of(*final(hash), *final(out)),
            ),
            Err(e) => exists|n: int|
                0 <= n < steps@.len() && stepped_all(
                    run_of(*old(hash), *old(out)),
                    name@,
                    steps@,
                    n,
                    run_of(*final(hash), *final(out)),
                ) && fails(run_of(*final(hash), *final(out)), #[trigger] steps@[n]),
        },
{
    let ghost start = run_of(*hash, *out);
    let mut i: usize = 0;
    while i < steps.len()
        invariant
            i <= steps.len(),
            start == run_of(*old(hash), *old(out)),
            stepped_all(start, name@, steps@, i as int, run_of(*hash, *out)),
        decreases steps.len() - i,
    {
        let ghost mid = run_of(*hash, *out);
        match take_step(hash, out, name, &steps[i]) {
            Ok(u) => {
                proof {
                    lemma_one_more_step(start, name@, steps@, i as int, mid, run_of(*hash, *out));
                }
            },
            Err(e) => {
                assert(fails(run_of(*hash, *out), steps@[i as int]));
                return Err(e);
            },
        }
        i += 1;
    }
    Ok(())
}

/// The options that a document has for a game, if it has a mapping of them.
pub open spec fn options_of(doc: ValueView, game: ValueView) -> Option<Seq<(ValueView, ValueView)>> {
    match doc {
        ValueView::Mapping(top) => match lookup(top, game) {
            Some(ValueView::Mapping(options)) => Some(options),
            _ => None,
        },
        _ => None,
    }
}

/// The document with `options` for the options of the game.
pub open spec fn with_options(
    doc: ValueView,
    game: ValueView,
    options: Seq<(ValueView, ValueView)>,
) -> ValueView {
    match doc {
        ValueView::Mapping(top) => ValueView::Mapping(
            with_value(top, game, ValueView::Mapping(options)),
        ),
        _ => doc,
    }
}

/// A run that starts on `options`, with no notes and no messages.
pub open spec fn start_of(options: Seq<(ValueView, ValueView)>) -> Run {
    Run { entries: options, notes: Seq::empty(), messages: Seq::empty() }
}

/// Whether `handle_special` may leave `after` of the document `doc` and give
/// these notes and messages for it: they are what the steps may leave of the
/// options that the document has for the game. A document that is no
/// mapping, or has no mapping of options for the game, stays as it is and
/// gives nothing.
pub open spec fn handled(
    doc: ValueView,
    game: ValueView,
    name: Seq<char>,
    steps: Seq<Step>,
    after: ValueView,
    notes: Seq<Seq<char>>,
    messages: Seq<Seq<char>>,
) -> bool {
    match options_of(doc, game) {
        Some(options) => exists|left: Seq<(ValueView, ValueView)>|
            #[trigger] stepped_all(
                start_of(options),
                name,
                steps,
                steps.len() as int,
                Run { entries: left, notes, messages },
            ) && after == with_options(doc, game, left),
        None => after == doc && notes.len() == 0 && messages.len() == 0,
    }
}

/// Whether `handle_special` may give up on `doc` and leave `after` of it:
/// one of the steps is a draw that could not be made after the steps before
/// it.
pub open spec fn given_up(
    doc: ValueView,
    game: ValueView,
    name: Seq<char>,
    steps: Seq<Step>,
    after: ValueView,
) -> bool {
    match options_of(doc, game) {
        Some(options) => exists|n: int, run: Run|
            0 <= n < steps.len() && #[trigger] stepped_all(start_of(options), name, steps, n, run)
                && fails(run, steps[n]) && after == with_options(doc, game, run.entries),
        None => false,
    }
}

/// Takes the steps of a game on the options that `doc` has for it, and
/// returns the notes taken and what there is to tell the user about the
/// file of the player `name`: see `handled`. Where a draw cannot be made,
/// the document stays as the steps before it left it: see `given_up`.
pub fn handle_special(doc: &mut Value, game: &Value, name: &str, steps: &Vec<Step>) -> (r: Result<
    Outcome,
    DrawError,
>)
    ensures
        match r {
            Ok(out) => handled(
                old(doc)@,
                game@,
                name@,
                steps@,
                final(doc)@,
                texts(out.notes@),
                texts(out.messages@),
            ),
            Err(e) => given_up(old(doc)@, game@, name@, steps@, final(doc)@),
        },
{
    let mut out = Outcome { notes: Vec::new(), messages: Vec::new() };
    assert(texts(out.notes@) =~= Seq::empty());
    assert(texts(out.messages@) =~= Seq::empty());
    let mut taken: Result<(), DrawError> = Ok(());
    let ghost mut left = start_of(Seq::empty());
    match doc {
        Value::Mapping(top) => {
            proof {
                lemma_position(top@, game@, 0);
                if has_key(top@, game@) {
                    lemma_with_value(top@, game@, lookup(top@, game@)->0);
                }
            }
            match top.get_mut(game) {
                Some(slot) => {
                    match slot {
                        Value::Mapping(options) => {
                            assert(run_of(*options, out) == start_of(options@));
                            taken = take_steps(options, &mut out, name, steps);
                            proof {
                                left = run_of(*options, out);
                            }
                        },
                        _ => {},
                    }
                },
                None => {},
            }
        },
        _ => {},
    }
    match taken {
        Ok(u) => {
            proof {
                if options_of(old(doc)@, game@) is Some {
                    assert(doc@ == with_options(old(doc)@, game@, left.entries));
                    assert(stepped_all(
                        start_of(options_of(old(doc)@, game@)->0),
                        name@,
                        steps@,
                        steps@.len() as int,
                        Run {
                            entries: left.entries,
                            notes: texts(out.notes@),
                            messages: texts(out.messages@),
                        },
                    ));
                }
            }
            Ok(out)
        },
        Err(e) => {
            proof {
                let start = start_of(options_of(old(doc)@, game@)->0);
                let n = choose|n: int|
                    0 <= n < steps@.len() && stepped_all(start, name@, steps@, n, left) && fails(
                        left,
                        #[trigger] steps@[n],
                    );
                assert(stepped_all(start, name@, steps@, n, left));
                assert(doc@ == with_options(old(doc)@, game@, left.entries));
            }
            Err(e)
        },
    }
}

} // verus!
