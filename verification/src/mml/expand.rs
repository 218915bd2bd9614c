//! Loops written out: a loop becomes its body, repeated.

use vstd::prelude::*;
use crate::mml::ast::{
    lemma_playable_concat, lemma_view_commands, lemma_view_commands_push, playable,
    playable_command, view_commands, Command, CommandView,
};
use crate::mml::error::{ParseError, ParseErrorView};

verus! {

/// The most commands that one loop may expand to.
pub const MAX_EXPANDED_COMMANDS: usize = 10_000;

/// `part` written `times` times in a row.
pub open spec fn repeat(part: Seq<CommandView>, times: nat) -> Seq<CommandView>
    decreases times,
{
    if times == 0 {
        Seq::empty()
    } else {
        repeat(part, (times - 1) as nat) + part
    }
}

/// Where the last repetition of a loop body of `len` commands stops: at the
/// escape point where there is one within the body, else at the end.
pub open spec fn last_stop(len: nat, escape_index: Option<usize>) -> nat {
    match escape_index {
        Some(k) => if k <= len {
            k as nat
        } else {
            len
        },
        None => len,
    }
}

/// What a command expands to: a loop to the expansion of its body, any
/// other command to itself. A tuplet is one command, whatever it holds.
pub open spec fn expand_command(command: CommandView) -> Seq<CommandView>
    decreases command, 0nat,
{
    match command {
        CommandView::Loop { commands, escape_index, repeat_count } => expand(
            commands,
            escape_index,
            repeat_count as nat,
        ),
        other => seq![other],
    }
}

/// The expansions of the first `n` commands of `body`, in order.
pub open spec fn expand_first(body: Seq<CommandView>, n: nat) -> Seq<CommandView>
    decreases body, n,
{
    if n == 0 || n > body.len() {
        Seq::empty()
    } else {
        expand_first(body, (n - 1) as nat) + expand_command(body[n - 1])
    }
}

/// The expansion of a loop: the expanded body `repeat_count` times, the
/// last time only up to the escape point. Loops inside the body are
/// expanded in place, each time they are met.
pub open spec fn expand(
    body: Seq<CommandView>,
    escape_index: Option<usize>,
    repeat_count: nat,
) -> Seq<CommandView>
    decreases body, body.len() + 1,
{
    if repeat_count == 0 {
        Seq::empty()
    } else {
        repeat(expand_first(body, body.len()), (repeat_count - 1) as nat) + expand_first(
            body,
            last_stop(body.len(), escape_index),
        )
    }
}

/// Whether no command of `body` is a loop.
pub open spec fn loop_free(body: Seq<CommandView>) -> bool {
    forall|i: int| 0 <= i < body.len() ==> !(#[trigger] body[i] is Loop)
}

/// The error for an expansion that is too large.
pub open spec fn expansion_too_large() -> ParseErrorView {
    ParseErrorView::LoopExpandedTooLarge {
        max_commands: MAX_EXPANDED_COMMANDS,
        actual: (MAX_EXPANDED_COMMANDS + 1) as usize,
    }
}

/// What `expand_loop` returns: the expansion, unless it holds more than
/// `MAX_EXPANDED_COMMANDS` commands.
pub open spec fn checked_expand(
    body: Seq<CommandView>,
    escape_index: Option<usize>,
    repeat_count: nat,
) -> Result<Seq<CommandView>, ParseErrorView> {
    if expand(body, escape_index, repeat_count).len() > MAX_EXPANDED_COMMANDS {
        Err(expansion_too_large())
    } else {
        Ok(expand(body, escape_index, repeat_count))
    }
}

/// The length of `part` repeated is the length of `part` times the number
/// of repetitions.
pub proof fn lemma_repeat_len(part: Seq<CommandView>, times: nat)
    ensures
        repeat(part, times).len() == part.len() * times,
    decreases times,
{
    if times > 0 {
        lemma_repeat_len(part, (times - 1) as nat);
        assert(part.len() * times == part.len() * (times - 1) + part.len()) by (nonlinear_arith);
    } else {
        assert(part.len() * times == 0) by (nonlinear_arith)
            requires
                times == 0,
        ;
    }
}

/// The first `n` commands of a body without loops expand to themselves.
pub proof fn lemma_expand_first_loop_free(body: Seq<CommandView>, n: nat)
    requires
        loop_free(body),
        n <= body.len(),
    ensures
        expand_first(body, n) == body.subrange(0, n as int),
    decreases n,
{
    if n > 0 {
        lemma_expand_first_loop_free(body, (n - 1) as nat);
        assert(expand_command(body[n - 1]) == seq![body[n - 1]]);
        assert(body.subrange(0, n - 1) + seq![body[n - 1]] =~= body.subrange(0, n as int));
    } else {
        assert(body.subrange(0, 0) =~= Seq::<CommandView>::empty());
    }
}

/// Expanding more commands gives no fewer.
pub proof fn lemma_expand_first_grows(body: Seq<CommandView>, m: nat, n: nat)
    requires
        m <= n <= body.len(),
    ensures
        expand_first(body, m).len() <= expand_first(body, n).len(),
    decreases n,
{
    if m < n {
        lemma_expand_first_grows(body, m, (n - 1) as nat);
    }
}

/// Repeating more often gives no fewer commands.
pub proof fn lemma_repeat_grows(part: Seq<CommandView>, fewer: nat, more: nat)
    requires
        fewer <= more,
    ensures
        repeat(part, fewer).len() <= repeat(part, more).len(),
    decreases more,
{
    if fewer < more {
        lemma_repeat_grows(part, fewer, (more - 1) as nat);
    }
}

/// A loop whose body holds no loop and no escape point expands to as many
/// commands as the body holds, times the repeat count.
pub proof fn lemma_expansion_length(body: Seq<CommandView>, repeat_count: nat)
    requires
        loop_free(body),
        1 <= repeat_count <= 99,
    ensures
        expand(body, None, repeat_count).len() == body.len() * repeat_count,
{
    lemma_expand_first_loop_free(body, body.len());
    assert(body.subrange(0, body.len() as int) =~= body);
    lemma_repeat_len(body, (repeat_count - 1) as nat);
    assert(body.len() * (repeat_count - 1) + body.len() == body.len() * repeat_count)
        by (nonlinear_arith);
}

/// A loop whose body holds no loop and has its escape point at index `k`
/// expands to the whole body for every repetition but the last, and the
/// first `k` commands for the last.
pub proof fn lemma_expansion_length_with_escape(
    body: Seq<CommandView>,
    k: usize,
    repeat_count: nat,
)
    requires
        loop_free(body),
        k < body.len(),
        repeat_count >= 1,
    ensures
        expand(body, Some(k), repeat_count).len() == body.len() * (repeat_count - 1) + k,
{
    lemma_expand_first_loop_free(body, body.len());
    lemma_expand_first_loop_free(body, k as nat);
    assert(body.subrange(0, body.len() as int) =~= body);
    lemma_repeat_len(body, (repeat_count - 1) as nat);
}

/// Two sequences without loops, one after the other, hold no loop.
pub proof fn lemma_loop_free_concat(first: Seq<CommandView>, second: Seq<CommandView>)
    requires
        loop_free(first),
        loop_free(second),
    ensures
        loop_free(first + second),
{
    assert forall|i: int| 0 <= i < (first + second).len() implies !(#[trigger] (first
        + second)[i] is Loop) by {
        if i < first.len() {
            assert((first + second)[i] == first[i]);
        } else {
            assert((first + second)[i] == second[i - first.len()]);
        }
    }
}

/// An expansion holds no loop: every loop in the body has been replaced by
/// what it expands to.
pub proof fn lemma_expansion_holds_no_loop(
    body: Seq<CommandView>,
    escape_index: Option<usize>,
    repeat_count: nat,
)
    ensures
        loop_free(expand(body, escape_index, repeat_count)),
    decreases body, body.len() + 1,
{
    if repeat_count > 0 {
        lemma_expand_first_holds_no_loop(body, body.len());
        lemma_expand_first_holds_no_loop(body, last_stop(body.len(), escape_index));
        lemma_repeat_holds_no_loop(expand_first(body, body.len()), (repeat_count - 1) as nat);
        lemma_loop_free_concat(
            repeat(expand_first(body, body.len()), (repeat_count - 1) as nat),
            expand_first(body, last_stop(body.len(), escape_index)),
        );
    }
}

/// The expansions of the first commands of a body hold no loop.
pub proof fn lemma_expand_first_holds_no_loop(body: Seq<CommandView>, n: nat)
    ensures
        loop_free(expand_first(body, n)),
    decreases body, n,
{
    if n > 0 && n <= body.len() {
        lemma_expand_first_holds_no_loop(body, (n - 1) as nat);
        match body[n - 1] {
            CommandView::Loop { commands, escape_index, repeat_count } => {
                lemma_expansion_holds_no_loop(commands, escape_index, repeat_count as nat);
            },
            _ => {},
        }
        lemma_loop_free_concat(expand_first(body, (n - 1) as nat), expand_command(body[n - 1]));
    }
}

/// What holds no loop holds none when repeated.
pub proof fn lemma_repeat_holds_no_loop(part: Seq<CommandView>, times: nat)
    requires
        loop_free(part),
    ensures
        loop_free(repeat(part, times)),
    decreases times,
{
    if times > 0 {
        lemma_repeat_holds_no_loop(part, (times - 1) as nat);
        lemma_loop_free_concat(repeat(part, (times - 1) as nat), part);
    }
}

/// A loop without an escape point expands to as many commands as its
/// expanded body holds, times the repeat count, whatever the body holds.
pub proof fn lemma_expansion_length_of_any_body(body: Seq<CommandView>, repeat_count: nat)
    ensures
        expand(body, None, repeat_count).len() == expand_first(body, body.len()).len()
            * repeat_count,
{
    let whole = expand_first(body, body.len());
    if repeat_count > 0 {
        lemma_repeat_len(whole, (repeat_count - 1) as nat);
        assert(whole.len() * (repeat_count - 1) + whole.len() == whole.len() * repeat_count)
            by (nonlinear_arith);
    } else {
        assert(whole.len() * repeat_count == 0) by (nonlinear_arith)
            requires
                repeat_count == 0,
        ;
    }
}

/// What a loop that can be played expands to can be played.
pub proof fn lemma_expansion_playable(
    body: Seq<CommandView>,
    escape_index: Option<usize>,
    repeat_count: nat,
)
    requires
        playable(body),
    ensures
        playable(expand(body, escape_index, repeat_count)),
    decreases body, body.len() + 1,
{
    if repeat_count > 0 {
        lemma_expand_first_playable(body, body.len());
        lemma_expand_first_playable(body, last_stop(body.len(), escape_index));
        lemma_repeat_playable(expand_first(body, body.len()), (repeat_count - 1) as nat);
        lemma_playable_concat(
            repeat(expand_first(body, body.len()), (repeat_count - 1) as nat),
            expand_first(body, last_stop(body.len(), escape_index)),
        );
    }
}

/// The expansions of commands that can be played can be played.
pub proof fn lemma_expand_first_playable(body: Seq<CommandView>, n: nat)
    requires
        playable(body),
    ensures
        playable(expand_first(body, n)),
    decreases body, n,
{
    if n > 0 && n <= body.len() {
        lemma_expand_first_playable(body, (n - 1) as nat);
        assert(playable_command(body[n - 1]));
        match body[n - 1] {
            CommandView::Loop { commands, escape_index, repeat_count } => {
                lemma_expansion_playable(commands, escape_index, repeat_count as nat);
            },
            _ => {},
        }
        lemma_playable_concat(expand_first(body, (n - 1) as nat), expand_command(body[n - 1]));
    }
}

/// What can be played can be played again.
pub proof fn lemma_repeat_playable(part: Seq<CommandView>, times: nat)
    requires
        playable(part),
    ensures
        playable(repeat(part, times)),
    decreases times,
{
    if times > 0 {
        lemma_repeat_playable(part, (times - 1) as nat);
        lemma_playable_concat(repeat(part, (times - 1) as nat), part);
    }
}

/// Appends to `out` the expansion of the loop, as long as `out` stays
/// within `MAX_EXPANDED_COMMANDS`; tells whether it did.
fn expand_into(
    commands: &[Command],
    escape_index: Option<usize>,
    repeat_count: usize,
    out: &mut Vec<Command>,
) -> (fits: bool)
    requires
        old(out).len() <= MAX_EXPANDED_COMMANDS,
    ensures
        final(out).len() <= MAX_EXPANDED_COMMANDS,
        fits ==> view_commands(final(out)@) == view_commands(old(out)@) + expand(
            view_commands(commands@),
            escape_index,
            repeat_count as nat,
        ),
        !fits ==> old(out).len() + expand(
            view_commands(commands@),
            escape_index,
            repeat_count as nat,
        ).len() > MAX_EXPANDED_COMMANDS,
    decreases commands@,
{
    let ghost body = view_commands(commands@);
    let ghost before = view_commands(out@);
    let ghost whole = expand_first(body, body.len());
    let ghost total = expand(body, escape_index, repeat_count as nat);
    proof {
        lemma_view_commands(commands@);
        lemma_view_commands(out@);
        assert(before + repeat(whole, 0) =~= before);
    }
    let stop: usize = match escape_index {
        Some(k) => if k <= commands.len() {
            k
        } else {
            commands.len()
        },
        None => commands.len(),
    };
    let mut round: usize = 0;
    while round < repeat_count
        invariant
            round <= repeat_count,
            repeat_count > 0 ==> round < repeat_count,
            out.len() <= MAX_EXPANDED_COMMANDS,
            body == view_commands(commands@),
            body.len() == commands.len(),
            before == view_commands(old(out)@),
            before.len() == old(out).len(),
            whole == expand_first(body, body.len()),
            total == expand(body, escape_index, repeat_count as nat),
            stop == last_stop(body.len(), escape_index),
            forall|j: int| 0 <= j < commands.len() ==> #[trigger] body[j] == commands[j]@,
            view_commands(out@) == before + repeat(whole, round as nat),
        decreases repeat_count - round,
    {
        let is_last = round == repeat_count - 1;
        let end: usize = if is_last {
            stop
        } else {
            commands.len()
        };
        let mut index: usize = 0;
        let ghost done = before + repeat(whole, round as nat);
        proof {
            assert(done + expand_first(body, 0) =~= done);
        }
        while index < end
            invariant
                index <= end <= commands.len(),
                round < repeat_count,
                is_last == (round == repeat_count - 1),
                end == (if is_last {
                    stop
                } else {
                    commands.len()
                }),
                out.len() <= MAX_EXPANDED_COMMANDS,
                body == view_commands(commands@),
                body.len() == commands.len(),
                before == view_commands(old(out)@),
                before.len() == old(out).len(),
                whole == expand_first(body, body.len()),
                total == expand(body, escape_index, repeat_count as nat),
                stop == last_stop(body.len(), escape_index),
                forall|j: int| 0 <= j < commands.len() ==> #[trigger] body[j] == commands[j]@,
                done == before + repeat(whole, round as nat),
                view_commands(out@) == done + expand_first(body, index as nat),
            decreases end - index,
        {
            let ghost so_far = view_commands(out@);
            let ghost len_so_far = out.len();
            proof {
                lemma_view_commands(out@);
            }
            let fits = match &commands[index] {
                Command::Loop { commands: inner, escape_index: inner_escape, repeat_count: inner_count } => {
                    expand_into(inner.as_slice(), *inner_escape, *inner_count, out)
                },
                other => {
                    if out.len() >= MAX_EXPANDED_COMMANDS {
                        false
                    } else {
                        let copy = other.clone();
                        proof {
                            lemma_view_commands_push(out@, copy);
                            assert(expand_command(body[index as int]) == seq![copy@]);
                            assert(so_far.push(copy@) =~= so_far + seq![copy@]);
                        }
                        out.push(copy);
                        true
                    }
                },
            };
            proof {
                let piece = expand_command(body[index as int]);
                assert(expand_first(body, (index + 1) as nat) == expand_first(body, index as nat)
                    + piece);
                if fits {
                    assert(view_commands(out@) =~= done + expand_first(body, (index + 1) as nat));
                } else {
                    // The expansion holds at least what stands in `out` and this piece.
                    assert(len_so_far + piece.len() > MAX_EXPANDED_COMMANDS);
                    lemma_expand_first_grows(body, (index + 1) as nat, end as nat);
                    lemma_expand_first_grows(body, end as nat, body.len());
                    lemma_repeat_grows(whole, round as nat, (repeat_count - 1) as nat);
                    if !is_last {
                        lemma_repeat_grows(whole, (round + 1) as nat, (repeat_count - 1) as nat);
                    }
                    assert(so_far.len() == len_so_far);
                    assert(total.len() >= repeat(whole, round as nat).len() + expand_first(
                        body,
                        (index + 1) as nat,
                    ).len());
                }
            }
            if !fits {
                return false;
            }
            index += 1;
        }
        proof {
            if !is_last {
                assert(view_commands(out@) =~= before + repeat(whole, (round + 1) as nat));
            }
        }
        if is_last {
            proof {
                assert(view_commands(out@) =~= before + total);
            }
            return true;
        }
        round += 1;
    }
    proof {
        assert(repeat_count == 0);
        assert(view_commands(out@) =~= before + total);
    }
    true
}

/// Expands a loop into the flat sequence of commands that it stands for:
/// `commands` `repeat_count` times, the last time only up to
/// `escape_index`, with every loop among them expanded in turn. An escape
/// index beyond the body counts as none. Fails, without building more, as
/// soon as the expansion passes `MAX_EXPANDED_COMMANDS` commands; the error
/// then reports the count that was reached, one more than the limit.
pub fn expand_loop(commands: &[Command], escape_index: Option<usize>, repeat_count: usize) -> (result:
    Result<Vec<Command>, ParseError>)
    ensures
        match (result, checked_expand(view_commands(commands@), escape_index, repeat_count as nat)) {
            (Ok(expanded), Ok(e)) => view_commands(expanded@) == e,
            (Err(error), Err(e)) => error@ == e,
            _ => false,
        },
{
    let mut expanded: Vec<Command> = Vec::new();
    proof {
        assert(view_commands(expanded@) =~= Seq::<CommandView>::empty());
    }
    if expand_into(commands, escape_index, repeat_count, &mut expanded) {
        proof {
            lemma_view_commands(expanded@);
            assert(Seq::<CommandView>::empty() + expand(
                view_commands(commands@),
                escape_index,
                repeat_count as nat,
            ) =~= expand(view_commands(commands@), escape_index, repeat_count as nat));
        }
        Ok(expanded)
    } else {
        Err(
            ParseError::LoopExpandedTooLarge {
                max_commands: MAX_EXPANDED_COMMANDS,
                actual: MAX_EXPANDED_COMMANDS + 1,
            },
        )
    }
}

} // verus!
