use vstd::prelude::*;

use crate::error::{Location, ParseError, ParseErrorKind};
use crate::token::{Basic, Token};

verus! {

/// The parsed, structural program unit: a leaf performing one primitive
/// effect, or a loop that exclusively owns the ordered sequence of actions
/// nested inside it.
#[derive(Debug)]
pub enum Action {
    Basic(Basic),
    Loop(Vec<Action>),
}

/// Number of loop nodes in one action, nested loops included.
pub open spec fn loop_count(a: Action) -> nat
    decreases a,
{
    match a {
        Action::Basic(_) => 0,
        Action::Loop(inner) => 1 + loop_count_seq(inner@, 0),
    }
}

/// Number of loop nodes in the actions of `s` from position `i` on.
pub open spec fn loop_count_seq(s: Seq<Action>, i: int) -> nat
    decreases s, s.len() - i,
{
    if i < 0 || i >= s.len() {
        0
    } else {
        loop_count(s[i]) + loop_count_seq(s, i + 1)
    }
}

/// The token stream that one action prints back: a basic action is its own
/// token; a loop is its body bracketed by the two delimiters.
pub open spec fn flatten(a: Action) -> Seq<Token>
    decreases a,
{
    match a {
        Action::Basic(b) => seq![Token::Basic(b)],
        Action::Loop(inner) => seq![Token::StartLoop] + flatten_seq(inner@, 0)
            + seq![Token::EndLoop],
    }
}

/// The token stream printed back by the actions of `s` from position `i` on.
pub open spec fn flatten_seq(s: Seq<Action>, i: int) -> Seq<Token>
    decreases s, s.len() - i,
{
    if i < 0 || i >= s.len() {
        Seq::empty()
    } else {
        flatten(s[i]) + flatten_seq(s, i + 1)
    }
}

/// The tokens of a located token stream, locations dropped.
pub open spec fn strip_locations(toks: Seq<(Location, Token)>) -> Seq<Token> {
    toks.map_values(|p: (Location, Token)| p.1)
}

/// Scan the stream from position `i`, with `open` holding the locations of
/// the start-loop tokens whose loops are still open, innermost last.  The
/// result is the structural error the stream produces, or `None` when the
/// delimiters balance: an end-loop token with no open loop is an unmatched
/// loop end at that token's location, and an open loop still unclosed at the
/// end of the stream is an unmatched loop start at the innermost such start
/// token's location.  The first unmatched construct in stream order decides.
pub open spec fn scan_error(
    toks: Seq<(Location, Token)>,
    i: int,
    open: Seq<Location>,
) -> Option<ParseError>
    decreases toks.len() - i,
{
    if i < 0 || i >= toks.len() {
        if open.len() == 0 {
            None
        } else {
            Some(ParseError { loc: open.last(), kind: ParseErrorKind::UnmatchedLoopStart })
        }
    } else {
        match toks[i].1 {
            Token::Basic(_) => scan_error(toks, i + 1, open),
            Token::StartLoop => scan_error(toks, i + 1, open.push(toks[i].0)),
            Token::EndLoop => if open.len() == 0 {
                Some(ParseError { loc: toks[i].0, kind: ParseErrorKind::UnmatchedLoopEnd })
            } else {
                scan_error(toks, i + 1, open.drop_last())
            },
        }
    }
}

/// The loop nesting depth after the first `k` tokens: start-loop tokens
/// minus end-loop tokens among them.
pub open spec fn nesting_depth(toks: Seq<(Location, Token)>, k: int) -> int
    decreases k,
{
    if k <= 0 || k > toks.len() {
        0
    } else {
        nesting_depth(toks, k - 1) + (match toks[k - 1].1 {
            Token::StartLoop => 1int,
            Token::EndLoop => -1int,
            Token::Basic(_) => 0int,
        })
    }
}

/// The scan from position `i` with `open` loops pending finds no error
/// exactly when, counting from there, no prefix closes more loops than are
/// open and the end of the stream closes them all.
proof fn lemma_scan_depth(toks: Seq<(Location, Token)>, i: int, open: Seq<Location>)
    requires
        0 <= i <= toks.len(),
    ensures
        scan_error(toks, i, open) is None <==> ((forall|k: int|
            i <= k <= toks.len() ==> open.len() + #[trigger] nesting_depth(toks, k) - nesting_depth(toks, i)
                >= 0) && open.len() + nesting_depth(toks, toks.len() as int) - nesting_depth(
            toks,
            i,
        ) == 0),
    decreases toks.len() - i,
{
    let len = toks.len() as int;
    if i < len {
        assert(nesting_depth(toks, i + 1) == nesting_depth(toks, i) + (match toks[i].1 {
            Token::StartLoop => 1int,
            Token::EndLoop => -1int,
            Token::Basic(_) => 0int,
        }));
        match toks[i].1 {
            Token::Basic(_) => {
                lemma_scan_depth(toks, i + 1, open);
                assert((forall|k: int|
                    i <= k <= len ==> open.len() + #[trigger] nesting_depth(toks, k) - nesting_depth(toks, i)
                        >= 0) <==> (forall|k: int|
                    i + 1 <= k <= len ==> open.len() + #[trigger] nesting_depth(toks, k) - nesting_depth(
                        toks,
                        i + 1,
                    ) >= 0));
            },
            Token::StartLoop => {
                let open2 = open.push(toks[i].0);
                lemma_scan_depth(toks, i + 1, open2);
                assert((forall|k: int|
                    i <= k <= len ==> open.len() + #[trigger] nesting_depth(toks, k) - nesting_depth(toks, i)
                        >= 0) <==> (forall|k: int|
                    i + 1 <= k <= len ==> open2.len() + #[trigger] nesting_depth(toks, k) - nesting_depth(
                        toks,
                        i + 1,
                    ) >= 0));
            },
            Token::EndLoop => {
                if open.len() == 0 {
                    assert(open.len() + nesting_depth(toks, i + 1) - nesting_depth(toks, i)
                        < 0);
                } else {
                    let open2 = open.drop_last();
                    lemma_scan_depth(toks, i + 1, open2);
                    assert((forall|k: int|
                        i <= k <= len ==> open.len() + #[trigger] nesting_depth(toks, k) - nesting_depth(
                            toks,
                            i,
                        ) >= 0) <==> (forall|k: int|
                        i + 1 <= k <= len ==> open2.len() + #[trigger] nesting_depth(toks, k)
                            - nesting_depth(toks, i + 1) >= 0));
                }
            },
        }
    }
}

/// A token stream parses successfully exactly when its loop delimiters
/// balance by counting: no prefix holds more end-loop than start-loop
/// tokens, and the whole stream holds equally many of each.
pub proof fn lemma_parse_ok_iff_balanced(toks: Seq<(Location, Token)>)
    ensures
        scan_error(toks, 0, Seq::empty()) is None <==> ((forall|k: int|
            0 <= k <= toks.len() ==> #[trigger] nesting_depth(toks, k) >= 0) && nesting_depth(
            toks,
            toks.len() as int,
        ) == 0),
{
    lemma_scan_depth(toks, 0, Seq::empty());
}

/// The loop nesting depth after the first `k` tokens of a bare token
/// sequence.
pub open spec fn token_depth(ts: Seq<Token>, k: int) -> int
    decreases k,
{
    if k <= 0 || k > ts.len() {
        0
    } else {
        token_depth(ts, k - 1) + (match ts[k - 1] {
            Token::StartLoop => 1int,
            Token::EndLoop => -1int,
            Token::Basic(_) => 0int,
        })
    }
}

/// Depth within the first part of a concatenation ignores the second part.
proof fn lemma_token_depth_prefix(ts1: Seq<Token>, ts2: Seq<Token>, k: int)
    requires
        0 <= k <= ts1.len(),
    ensures
        token_depth(ts1 + ts2, k) == token_depth(ts1, k),
    decreases k,
{
    if k > 0 {
        lemma_token_depth_prefix(ts1, ts2, k - 1);
        assert((ts1 + ts2)[k - 1] == ts1[k - 1]);
    }
}

/// Depth past the first part of a concatenation adds the parts' depths.
proof fn lemma_token_depth_concat(ts1: Seq<Token>, ts2: Seq<Token>, k: int)
    requires
        0 <= k <= ts2.len(),
    ensures
        token_depth(ts1 + ts2, ts1.len() + k) == token_depth(ts1, ts1.len() as int)
            + token_depth(ts2, k),
    decreases k,
{
    if k == 0 {
        lemma_token_depth_prefix(ts1, ts2, ts1.len() as int);
    } else {
        lemma_token_depth_concat(ts1, ts2, k - 1);
        assert((ts1 + ts2)[ts1.len() + k - 1] == ts2[k - 1]);
    }
}

/// The depth of a one-token sequence after that token.
proof fn lemma_token_depth_one(t: Token)
    ensures
        token_depth(seq![t], 1) == (match t {
            Token::StartLoop => 1int,
            Token::EndLoop => -1int,
            Token::Basic(_) => 0int,
        }),
{
    assert(seq![t][0] == t);
    assert(token_depth(seq![t], 0) == 0);
}

/// What one action prints is balanced: it is nonempty, no prefix closes
/// more loops than it opens, the whole closes every loop it opens — and for
/// a loop action the depth stays strictly positive anywhere inside the
/// bracket pair.
proof fn lemma_flatten_balanced_act(a: Action)
    ensures
        flatten(a).len() >= 1,
        a is Loop ==> flatten(a).len() >= 2,
        forall|k: int|
            0 <= k <= flatten(a).len() ==> #[trigger] token_depth(flatten(a), k) >= 0,
        token_depth(flatten(a), flatten(a).len() as int) == 0,
        a is Loop ==> forall|k: int|
            1 <= k < flatten(a).len() ==> #[trigger] token_depth(flatten(a), k) >= 1,
    decreases a,
{
    match a {
        Action::Basic(b) => {
            assert(flatten(a) =~= seq![Token::Basic(b)]);
            lemma_token_depth_one(Token::Basic(b));
        },
        Action::Loop(v) => {
            lemma_flatten_balanced_seq(v@, 0);
            let fs = flatten_seq(v@, 0);
            let g = seq![Token::StartLoop] + fs;
            let f = g + seq![Token::EndLoop];
            assert(flatten(a) == f);
            lemma_token_depth_one(Token::StartLoop);
            lemma_token_depth_one(Token::EndLoop);
            assert forall|k: int| 1 <= k <= g.len() implies #[trigger] token_depth(g, k)
                == 1 + token_depth(fs, k - 1) by {
                lemma_token_depth_concat(seq![Token::StartLoop], fs, k - 1);
            }
            assert forall|k: int| 0 <= k <= g.len() implies #[trigger] token_depth(f, k)
                == token_depth(g, k) by {
                lemma_token_depth_prefix(g, seq![Token::EndLoop], k);
            }
            lemma_token_depth_concat(g, seq![Token::EndLoop], 1);
            assert(token_depth(f, f.len() as int) == token_depth(g, g.len() as int) - 1);
            assert(token_depth(g, g.len() as int) == 1 + token_depth(fs, fs.len() as int));
        },
    }
}

/// What a sequence of actions prints is balanced, as
/// `lemma_flatten_balanced_act` states it for one action.
proof fn lemma_flatten_balanced_seq(s: Seq<Action>, i: int)
    requires
        0 <= i <= s.len(),
    ensures
        forall|k: int|
            0 <= k <= flatten_seq(s, i).len() ==> #[trigger] token_depth(flatten_seq(s, i), k)
                >= 0,
        token_depth(flatten_seq(s, i), flatten_seq(s, i).len() as int) == 0,
    decreases s, s.len() - i,
{
    if i < s.len() {
        lemma_flatten_balanced_act(s[i]);
        lemma_flatten_balanced_seq(s, i + 1);
        let f1 = flatten(s[i]);
        let f2 = flatten_seq(s, i + 1);
        let l1 = f1.len() as int;
        assert(flatten_seq(s, i) == f1 + f2);
        assert forall|k: int| 0 <= k <= (f1 + f2).len() implies #[trigger] token_depth(
            f1 + f2,
            k,
        ) >= 0 by {
            if k <= l1 {
                lemma_token_depth_prefix(f1, f2, k);
            } else {
                lemma_token_depth_concat(f1, f2, k - l1);
            }
        }
        lemma_token_depth_concat(f1, f2, f2.len() as int);
    }
}

/// Structural equality of two actions: the same variant, the same
/// instruction kind, and loop bodies structurally equal element by element.
/// (The machine identity of the vectors inside plays no role.)
pub open spec fn action_eq(a1: Action, a2: Action) -> bool
    decreases a1,
{
    match (a1, a2) {
        (Action::Basic(b1), Action::Basic(b2)) => b1 == b2,
        (Action::Loop(v1), Action::Loop(v2)) => actions_eq_from(v1@, 0, v2@, 0),
        _ => false,
    }
}

/// Structural equality of the actions of `s1` from `i1` on with those of
/// `s2` from `i2` on: equally many remain, and they match pairwise.
pub open spec fn actions_eq_from(s1: Seq<Action>, i1: int, s2: Seq<Action>, i2: int) -> bool
    decreases s1, s1.len() - i1,
{
    s1.len() - i1 == s2.len() - i2 && (i1 < 0 || i1 >= s1.len() || (action_eq(s1[i1], s2[i2])
        && actions_eq_from(s1, i1 + 1, s2, i2 + 1)))
}

/// Printed token streams identify the actions that printed them: equal
/// streams from position `i1` of `s1` and `i2` of `s2` force the remaining
/// actions to be structurally equal, element for element.
proof fn lemma_flatten_inj_cat(s1: Seq<Action>, i1: int, s2: Seq<Action>, i2: int)
    requires
        0 <= i1 <= s1.len(),
        0 <= i2 <= s2.len(),
        flatten_seq(s1, i1) == flatten_seq(s2, i2),
    ensures
        actions_eq_from(s1, i1, s2, i2),
    decreases s1, s1.len() - i1,
{
    let t = flatten_seq(s1, i1);
    if i1 == s1.len() {
        if i2 < s2.len() {
            lemma_flatten_balanced_act(s2[i2]);
            assert(flatten_seq(s2, i2) == flatten(s2[i2]) + flatten_seq(s2, i2 + 1));
            assert(false);
        }
    } else if i2 == s2.len() {
        lemma_flatten_balanced_act(s1[i1]);
        assert(flatten_seq(s1, i1) == flatten(s1[i1]) + flatten_seq(s1, i1 + 1));
        assert(false);
    } else {
        let a1 = s1[i1];
        let a2 = s2[i2];
        let f1 = flatten(a1);
        let f2 = flatten(a2);
        let r1 = flatten_seq(s1, i1 + 1);
        let r2 = flatten_seq(s2, i2 + 1);
        lemma_flatten_balanced_act(a1);
        lemma_flatten_balanced_act(a2);
        assert(t == f1 + r1);
        assert(t == f2 + r2);
        assert(t[0] == f1[0]);
        assert(t[0] == f2[0]);
        match (a1, a2) {
            (Action::Basic(b1), Action::Basic(b2)) => {
                assert(f1 =~= seq![Token::Basic(b1)]);
                assert(f2 =~= seq![Token::Basic(b2)]);
                assert(b1 == b2);
                assert(action_eq(a1, a2));
                assert(r1 =~= r2) by {
                    assert(r1.len() == r2.len());
                    assert forall|j: int| 0 <= j < r1.len() implies r1[j] == r2[j] by {
                        assert(r1[j] == t[1 + j]);
                        assert(r2[j] == t[1 + j]);
                    }
                }
                lemma_flatten_inj_cat(s1, i1 + 1, s2, i2 + 1);
            },
            (Action::Loop(v1), Action::Loop(v2)) => {
                let l1 = f1.len() as int;
                let l2 = f2.len() as int;
                assert(l1 == l2) by {
                    if l1 < l2 {
                        lemma_token_depth_concat(f1, r1, 0);
                        lemma_token_depth_prefix(f2, r2, l1);
                        assert(token_depth(t, l1) == 0);
                        assert(token_depth(t, l1) >= 1);
                    } else if l2 < l1 {
                        lemma_token_depth_concat(f2, r2, 0);
                        lemma_token_depth_prefix(f1, r1, l2);
                        assert(token_depth(t, l2) == 0);
                        assert(token_depth(t, l2) >= 1);
                    }
                }
                let fs1 = flatten_seq(v1@, 0);
                let fs2 = flatten_seq(v2@, 0);
                assert(f1 == (seq![Token::StartLoop] + fs1) + seq![Token::EndLoop]);
                assert(f2 == (seq![Token::StartLoop] + fs2) + seq![Token::EndLoop]);
                assert(fs1 =~= fs2) by {
                    assert(fs1.len() == fs2.len());
                    assert forall|j: int| 0 <= j < fs1.len() implies fs1[j] == fs2[j] by {
                        assert(f1[j + 1] == fs1[j]);
                        assert(f2[j + 1] == fs2[j]);
                        assert(f1[j + 1] == t[j + 1]);
                        assert(f2[j + 1] == t[j + 1]);
                    }
                }
                lemma_flatten_inj_cat(v1@, 0, v2@, 0);
                assert(action_eq(a1, a2));
                assert(r1 =~= r2) by {
                    assert(r1.len() == r2.len());
                    assert forall|j: int| 0 <= j < r1.len() implies r1[j] == r2[j] by {
                        assert(r1[j] == t[l1 + j]);
                        assert(r2[j] == t[l2 + j]);
                    }
                }
                lemma_flatten_inj_cat(s1, i1 + 1, s2, i2 + 1);
            },
            (Action::Basic(b1), Action::Loop(_)) => {
                assert(f1 =~= seq![Token::Basic(b1)]);
                assert(f2[0] == Token::StartLoop);
                assert(false);
            },
            (Action::Loop(_), Action::Basic(b2)) => {
                assert(f2 =~= seq![Token::Basic(b2)]);
                assert(f1[0] == Token::StartLoop);
                assert(false);
            },
        }
    }
}

/// For a given token stream there is at most one action tree: two trees
/// that print back the same token stream are structurally equal.  With
/// `parse`\'s contract, which pins the printed stream of the returned tree,
/// the parse result is therefore the unique valid tree.
pub proof fn lemma_flatten_injective(s1: Seq<Action>, s2: Seq<Action>)
    requires
        flatten_seq(s1, 0) == flatten_seq(s2, 0),
    ensures
        actions_eq_from(s1, 0, s2, 0),
{
    lemma_flatten_inj_cat(s1, 0, s2, 0);
}

/// Appending one action to a sequence appends its printed tokens.
proof fn lemma_flatten_seq_push(s: Seq<Action>, a: Action, i: int)
    requires
        0 <= i <= s.len(),
    ensures
        flatten_seq(s.push(a), i) == flatten_seq(s, i) + flatten(a),
    decreases s.len() - i,
{
    if i == s.len() {
        assert(s.push(a)[i] == a);
        assert(flatten_seq(s.push(a), i + 1) =~= Seq::<Token>::empty());
        assert(flatten_seq(s.push(a), i) =~= flatten(a));
        assert(flatten_seq(s, i) + flatten(a) =~= flatten(a));
    } else {
        lemma_flatten_seq_push(s, a, i + 1);
        assert(s.push(a)[i] == s[i]);
        assert((flatten(s[i]) + flatten_seq(s, i + 1)) + flatten(a) =~= flatten(s[i]) + (
        flatten_seq(s, i + 1) + flatten(a)));
    }
}

/// Consume a token stream and build the action tree, validating that loop
/// delimiters balance.  On success the tree prints back, in depth-first
/// order, exactly the instruction stream that was parsed; on failure the
/// error names the first unmatched construct in stream order, as `scan_error`
/// states it.
pub fn parse(tokens: &Vec<(Location, Token)>) -> (r: Result<Vec<Action>, ParseError>)
    ensures
        match r {
            Ok(actions) => scan_error(tokens@, 0, Seq::empty()) is None && flatten_seq(
                actions@,
                0,
            ) == strip_locations(tokens@),
            Err(e) => scan_error(tokens@, 0, Seq::empty()) == Some(e),
        },
{
    let mut actions: Vec<Action> = Vec::new();
    let mut pos: usize = 0;
    let n = tokens.len();
    proof {
        assert(flatten_seq(actions@, 0) =~= strip_locations(tokens@.subrange(0, 0)));
    }
    while pos < n
        invariant
            n == tokens@.len(),
            pos <= n,
            scan_error(tokens@, 0, Seq::empty()) == scan_error(
                tokens@,
                pos as int,
                Seq::empty(),
            ),
            flatten_seq(actions@, 0) == strip_locations(tokens@.subrange(0, pos as int)),
        decreases n - pos,
    {
        let loc = tokens[pos].0;
        let tok = tokens[pos].1;
        let ghost here = pos as int;
        pos = pos + 1;
        match tok {
            Token::Basic(b) => {
                proof {
                    assert(flatten(Action::Basic(b)) =~= seq![Token::Basic(b)]);
                    lemma_flatten_seq_push(actions@, Action::Basic(b), 0);
                    assert(strip_locations(tokens@.subrange(0, here + 1)) =~= strip_locations(
                        tokens@.subrange(0, here),
                    ) + seq![Token::Basic(b)]);
                    assert(scan_error(tokens@, here, Seq::<Location>::empty()) == scan_error(
                        tokens@,
                        here + 1,
                        Seq::<Location>::empty(),
                    ));
                }
                actions.push(Action::Basic(b));
            },
            Token::StartLoop => {
                let ghost open0: Seq<Location> = Seq::<Location>::empty().push(loc);
                proof {
                    assert(scan_error(tokens@, here, Seq::<Location>::empty()) == scan_error(
                        tokens@,
                        here + 1,
                        open0,
                    ));
                }
                match parse_loop(tokens, &mut pos, loc, Ghost(open0)) {
                    Ok(body) => {
                        proof {
                            assert(open0.drop_last() =~= Seq::<Location>::empty());
                        }
                        let ghost fb = flatten_seq(body@, 0);
                        proof {
                            lemma_flatten_seq_push(actions@, Action::Loop(body), 0);
                            assert(flatten(Action::Loop(body)) == seq![Token::StartLoop] + fb
                                + seq![Token::EndLoop]);
                            assert(tokens@[here].1 == Token::StartLoop);
                            assert(fb == strip_locations(
                                tokens@.subrange(here + 1, pos as int - 1),
                            ));
                            assert(strip_locations(tokens@.subrange(0, pos as int))
                                =~= strip_locations(tokens@.subrange(0, here)) + (
                            seq![Token::StartLoop] + strip_locations(
                                tokens@.subrange(here + 1, pos as int - 1),
                            ) + seq![Token::EndLoop]));
                        }
                        actions.push(Action::Loop(body));
                    },
                    Err(e) => {
                        return Err(e);
                    },
                }
            },
            Token::EndLoop => {
                proof {
                    assert(scan_error(tokens@, here, Seq::<Location>::empty()) == Some(
                        ParseError { loc, kind: ParseErrorKind::UnmatchedLoopEnd },
                    ));
                }
                return Err(ParseError { loc, kind: ParseErrorKind::UnmatchedLoopEnd });
            },
        }
    }
    proof {
        assert(tokens@.subrange(0, n as int) =~= tokens@);
    }
    Ok(actions)
}

/// Build the body of one loop whose start token, at `start_loc`, was just
/// consumed; `open` is the ghost stack of all enclosing unclosed start
/// tokens, this one last.  Consumes up to and including the matching
/// end-loop token.
fn parse_loop(
    tokens: &Vec<(Location, Token)>,
    pos: &mut usize,
    start_loc: Location,
    Ghost(open): Ghost<Seq<Location>>,
) -> (r: Result<Vec<Action>, ParseError>)
    requires
        *old(pos) <= tokens@.len(),
        open.len() > 0,
        open.last() == start_loc,
    ensures
        match r {
            Ok(body) => *old(pos) < *final(pos) <= tokens@.len() && tokens@[*final(pos)
                - 1].1 is EndLoop && flatten_seq(body@, 0) == strip_locations(
                tokens@.subrange(*old(pos) as int, *final(pos) - 1),
            ) && scan_error(tokens@, *old(pos) as int, open) == scan_error(
                tokens@,
                *final(pos) as int,
                open.drop_last(),
            ),
            Err(e) => scan_error(tokens@, *old(pos) as int, open) == Some(e),
        },
    decreases tokens@.len() - *old(pos),
{
    let mut actions: Vec<Action> = Vec::new();
    let ghost entry = *pos as int;
    let n = tokens.len();
    proof {
        assert(flatten_seq(actions@, 0) =~= strip_locations(tokens@.subrange(entry, entry)));
    }
    while *pos < n
        invariant
            n == tokens@.len(),
            entry == *old(pos) as int,
            entry <= *pos as int <= n,
            open.len() > 0,
            open.last() == start_loc,
            scan_error(tokens@, entry, open) == scan_error(tokens@, *pos as int, open),
            flatten_seq(actions@, 0) == strip_locations(tokens@.subrange(entry, *pos as int)),
        decreases n - *pos,
    {
        let loc = tokens[*pos].0;
        let tok = tokens[*pos].1;
        let ghost here = *pos as int;
        *pos = *pos + 1;
        match tok {
            Token::Basic(b) => {
                proof {
                    assert(flatten(Action::Basic(b)) =~= seq![Token::Basic(b)]);
                    lemma_flatten_seq_push(actions@, Action::Basic(b), 0);
                    assert(strip_locations(tokens@.subrange(entry, here + 1)) =~= strip_locations(
                        tokens@.subrange(entry, here),
                    ) + seq![Token::Basic(b)]);
                    assert(scan_error(tokens@, here, open) == scan_error(tokens@, here + 1, open));
                }
                actions.push(Action::Basic(b));
            },
            Token::StartLoop => {
                proof {
                    assert(scan_error(tokens@, here, open) == scan_error(
                        tokens@,
                        here + 1,
                        open.push(loc),
                    ));
                }
                match parse_loop(tokens, pos, loc, Ghost(open.push(loc))) {
                    Ok(body) => {
                        proof {
                            assert(open.push(loc).drop_last() =~= open);
                        }
                        let ghost fb = flatten_seq(body@, 0);
                        proof {
                            lemma_flatten_seq_push(actions@, Action::Loop(body), 0);
                            assert(flatten(Action::Loop(body)) == seq![Token::StartLoop] + fb
                                + seq![Token::EndLoop]);
                            assert(tokens@[here].1 == Token::StartLoop);
                            assert(fb == strip_locations(
                                tokens@.subrange(here + 1, *pos as int - 1),
                            ));
                            assert(strip_locations(tokens@.subrange(entry, *pos as int))
                                =~= strip_locations(tokens@.subrange(entry, here)) + (
                            seq![Token::StartLoop] + strip_locations(
                                tokens@.subrange(here + 1, *pos as int - 1),
                            ) + seq![Token::EndLoop]));
                        }
                        actions.push(Action::Loop(body));
                    },
                    Err(e) => {
                        return Err(e);
                    },
                }
            },
            Token::EndLoop => {
                proof {
                    assert(scan_error(tokens@, here, open) == scan_error(
                        tokens@,
                        here + 1,
                        open.drop_last(),
                    ));
                }
                return Ok(actions);
            },
        }
    }
    proof {
        assert(scan_error(tokens@, n as int, open) == Some(
            ParseError { loc: start_loc, kind: ParseErrorKind::UnmatchedLoopStart },
        ));
    }
    Err(ParseError { loc: start_loc, kind: ParseErrorKind::UnmatchedLoopStart })
}

} // verus!
