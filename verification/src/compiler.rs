use vstd::prelude::*;

use crate::decimal::{dec_digits, dec_string_u64};
use crate::io::{io_name, io_suffix, IoKind};
use crate::parser::{loop_count, loop_count_seq, Action};
use crate::token::Basic;

verus! {

/// The assembly text emitted for one basic action.
pub open spec fn basic_text(b: Basic, io: IoKind) -> Seq<char> {
    match b {
        Basic::MoveRight => "inc rbx\n"@,
        Basic::MoveLeft => "dec rbx\n"@,
        Basic::Increment => "inc byte [rbx]\n"@,
        Basic::Decrement => "dec byte [rbx]\n"@,
        Basic::Output => "call output_"@ + io_suffix(io) + "\n"@,
        Basic::Input => "call input_"@ + io_suffix(io) + "\n"@,
    }
}

/// The assembly text emitted for one action, with `ctr` the next free loop
/// label number.  A loop takes `ctr` for its own labels; its body is
/// numbered from `ctr + 1` on.
pub open spec fn compiled_act(a: Action, io: IoKind, ctr: nat) -> Seq<char>
    decreases a,
{
    match a {
        Action::Basic(b) => basic_text(b, io),
        Action::Loop(inner) => {
            let id = dec_digits(ctr);
            ".loop"@ + id + "_start:\ncmp byte [rbx], 0\nje .loop"@ + id + "_exit\n"@
                + compiled_seq(inner@, 0, io, ctr + 1) + "jmp .loop"@ + id + "_start\n.loop"@ + id
                + "_exit:\n\n"@
        },
    }
}

/// The assembly text emitted for the actions of `s` from position `i` on,
/// with `ctr` the next free loop label number.
pub open spec fn compiled_seq(s: Seq<Action>, i: int, io: IoKind, ctr: nat) -> Seq<char>
    decreases s, s.len() - i,
{
    if i < 0 || i >= s.len() {
        Seq::empty()
    } else {
        compiled_act(s[i], io, ctr) + compiled_seq(s, i + 1, io, ctr + loop_count(s[i]))
    }
}

/// Emit the body text for `code`, taking loop label numbers from `counter`
/// upward; `counter` moves past every number used, so that nested and later
/// loops never collide.
fn compile_impl(code: &Vec<Action>, io: &IoKind, counter: &mut u64) -> (r: String)
    requires
        *old(counter) + loop_count_seq(code@, 0) <= u64::MAX,
    ensures
        r@ == compiled_seq(code@, 0, *io, *old(counter) as nat),
        *final(counter) == *old(counter) + loop_count_seq(code@, 0),
    decreases code,
{
    let mut text = String::new();
    let n = code.len();
    let mut i: usize = 0;
    proof {
        assert(text@ + compiled_seq(code@, 0, *io, *old(counter) as nat) =~= compiled_seq(
            code@,
            0,
            *io,
            *old(counter) as nat,
        ));
    }
    while i < n
        invariant
            n == code@.len(),
            i <= n,
            *counter >= *old(counter),
            *counter + loop_count_seq(code@, i as int) == *old(counter) + loop_count_seq(
                code@,
                0,
            ),
            *old(counter) + loop_count_seq(code@, 0) <= u64::MAX,
            text@ + compiled_seq(code@, i as int, *io, *counter as nat) == compiled_seq(
                code@,
                0,
                *io,
                *old(counter) as nat,
            ),
        decreases n - i,
    {
        let ghost ctr0 = *counter as nat;
        let ghost text0 = text@;
        proof {
            assert(loop_count_seq(code@, i as int) == loop_count(code@[i as int])
                + loop_count_seq(code@, i + 1));
        }
        match &code[i] {
            Action::Basic(b) => {
                match b {
                    Basic::MoveRight => text.append("inc rbx\n"),
                    Basic::MoveLeft => text.append("dec rbx\n"),
                    Basic::Increment => text.append("inc byte [rbx]\n"),
                    Basic::Decrement => text.append("dec byte [rbx]\n"),
                    Basic::Output => {
                        text.append("call output_");
                        text.append(io_name(io));
                        text.append("\n");
                    },
                    Basic::Input => {
                        text.append("call input_");
                        text.append(io_name(io));
                        text.append("\n");
                    },
                }
                proof {
                    assert(compiled_act(code@[i as int], *io, ctr0) == basic_text(*b, *io));
                    assert(text@ =~= text0 + basic_text(*b, *io));
                    assert(text@ + compiled_seq(code@, i + 1, *io, *counter as nat) =~= (text0
                        + compiled_act(code@[i as int], *io, ctr0)) + compiled_seq(
                        code@,
                        i + 1,
                        *io,
                        ctr0,
                    ));
                }
            },
            Action::Loop(inner) => {
                let id = *counter;
                *counter = *counter + 1;
                let id_str = dec_string_u64(id);
                let inner_text = compile_impl(inner, io, counter);
                text.append(".loop");
                text.append(id_str.as_str());
                text.append("_start:\ncmp byte [rbx], 0\nje .loop");
                text.append(id_str.as_str());
                text.append("_exit\n");
                text.append(inner_text.as_str());
                text.append("jmp .loop");
                text.append(id_str.as_str());
                text.append("_start\n.loop");
                text.append(id_str.as_str());
                text.append("_exit:\n\n");
                proof {
                    assert(compiled_act(code@[i as int], *io, ctr0) == ".loop"@ + dec_digits(ctr0)
                        + "_start:\ncmp byte [rbx], 0\nje .loop"@ + dec_digits(ctr0) + "_exit\n"@
                        + compiled_seq(inner@, 0, *io, ctr0 + 1) + "jmp .loop"@ + dec_digits(ctr0)
                        + "_start\n.loop"@ + dec_digits(ctr0) + "_exit:\n\n"@);
                    assert(text@ =~= text0 + compiled_act(code@[i as int], *io, ctr0));
                    assert(text@ + compiled_seq(code@, i + 1, *io, *counter as nat) =~= (text0
                        + compiled_act(code@[i as int], *io, ctr0)) + compiled_seq(
                        code@,
                        i + 1,
                        *io,
                        ctr0 + loop_count(code@[i as int]),
                    ));
                }
            },
        }
        i = i + 1;
    }
    proof {
        assert(compiled_seq(code@, n as int, *io, *counter as nat) =~= Seq::<char>::empty());
        assert(text@ + Seq::<char>::empty() =~= text@);
    }
    text
}

/// Translate an action tree into one self-contained assembly unit under the
/// chosen I/O strategy: the caller-supplied standard-library preamble, a
/// text section marker, and the `run` subroutine holding the program body,
/// ending in a return.  Loop labels are numbered from zero, depth-first, one
/// fresh number per loop over the whole tree.
pub fn compile(code: &Vec<Action>, io: &IoKind, std_lib: &str) -> (r: String)
    requires
        loop_count_seq(code@, 0) <= u64::MAX,
    ensures
        r@ == std_lib@ + "\nsection .text\nrun:\n"@ + compiled_seq(code@, 0, *io, 0) + "ret\n"@,
{
    let mut counter: u64 = 0;
    let main = compile_impl(code, io, &mut counter);
    let mut out = String::new();
    out.append(std_lib);
    out.append("\nsection .text\nrun:\n");
    out.append(main.as_str());
    out.append("ret\n");
    proof {
        assert(out@ =~= std_lib@ + "\nsection .text\nrun:\n"@ + compiled_seq(code@, 0, *io, 0)
            + "ret\n"@);
    }
    out
}

/// A count clamped to what the label counter can hold.
pub open spec fn sat64(n: nat) -> nat {
    if n <= u64::MAX {
        n
    } else {
        u64::MAX as nat
    }
}

/// Addition clamped at the counter maximum.
fn sat_add_u64(a: u64, b: u64) -> (r: u64)
    ensures
        r as nat == sat64(a as nat + b as nat),
{
    if a > u64::MAX - b {
        u64::MAX
    } else {
        a + b
    }
}

/// The number of loop actions in the whole tree, nested ones included,
/// clamped at `u64::MAX`.  `compile` requires the true count to fit in the
/// label counter, so a caller may hold this result under `u64::MAX` before
/// compiling.
pub fn count_loops(code: &Vec<Action>) -> (r: u64)
    ensures
        r as nat == sat64(loop_count_seq(code@, 0)),
    decreases code,
{
    let mut total: u64 = 0;
    let ghost mut pre: nat = 0nat;
    let n = code.len();
    let mut i: usize = 0;
    while i < n
        invariant
            n == code@.len(),
            i <= n,
            total as nat == sat64(pre),
            pre + loop_count_seq(code@, i as int) == loop_count_seq(code@, 0),
        decreases n - i,
    {
        proof {
            assert(loop_count_seq(code@, i as int) == loop_count(code@[i as int])
                + loop_count_seq(code@, i + 1));
        }
        match &code[i] {
            Action::Basic(_) => {
                proof {
                    assert(loop_count(code@[i as int]) == 0);
                }
            },
            Action::Loop(inner) => {
                let c = count_loops(inner);
                total = sat_add_u64(sat_add_u64(total, 1), c);
                proof {
                    assert(loop_count(code@[i as int]) == 1 + loop_count_seq(inner@, 0));
                    pre = pre + loop_count(code@[i as int]);
                }
            },
        }
        i = i + 1;
    }
    total
}

/// The loop label numbers of one action, in emission order.
pub open spec fn label_ids(a: Action, ctr: nat) -> Seq<nat>
    decreases a,
{
    match a {
        Action::Basic(_) => Seq::empty(),
        Action::Loop(inner) => seq![ctr] + label_ids_seq(inner@, 0, ctr + 1),
    }
}

/// The loop label numbers of the actions of `s` from position `i` on, in
/// emission order.
pub open spec fn label_ids_seq(s: Seq<Action>, i: int, ctr: nat) -> Seq<nat>
    decreases s, s.len() - i,
{
    if i < 0 || i >= s.len() {
        Seq::empty()
    } else {
        label_ids(s[i], ctr) + label_ids_seq(s, i + 1, ctr + loop_count(s[i]))
    }
}

/// Unique labels, one action: an action holding K loop actions, nested ones
/// included, numbered from `ctr`, uses exactly the K numbers
/// ctr, ctr + 1, ..., ctr + K - 1, in that order — so all its labels are
/// distinct, whatever the nesting depth.
pub proof fn lemma_labels_consecutive_act(a: Action, ctr: nat)
    ensures
        label_ids(a, ctr) =~= Seq::new(loop_count(a), |k: int| (ctr + k) as nat),
    decreases a,
{
    match a {
        Action::Basic(_) => {
        },
        Action::Loop(inner) => {
            lemma_labels_consecutive(inner@, 0, ctr + 1);
        },
    }
}

/// Unique labels, action sequence: the actions of `s` from position `i` on,
/// holding K loop actions in all and numbered from `ctr`, use exactly the K
/// numbers ctr, ctr + 1, ..., ctr + K - 1, in that order.  In particular a
/// whole program with K loops, compiled with the counter starting at zero,
/// labels them 0 through K - 1, each number exactly once.
pub proof fn lemma_labels_consecutive(s: Seq<Action>, i: int, ctr: nat)
    ensures
        label_ids_seq(s, i, ctr) =~= Seq::new(loop_count_seq(s, i), |k: int| (ctr + k) as nat),
    decreases s, s.len() - i,
{
    if 0 <= i < s.len() {
        lemma_labels_consecutive_act(s[i], ctr);
        lemma_labels_consecutive(s, i + 1, ctr + loop_count(s[i]));
    }
}

} // verus!
