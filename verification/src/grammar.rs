//! The logical-character stream and the content-line grammar, as spec
//! functions.
//!
//! The parser reads the input through a *line-unfolding* lens: CR characters
//! vanish, CRLF and LF both appear as one `\n`, and a newline whose following
//! logical character is a space or tab folds away together with that
//! character. [`lh`] gives the next logical character at a raw position;
//! everything the parser does is specified on top of it.

use vstd::prelude::*;

use crate::chars::is_name_char;
use crate::chars::is_qsafe_char;
use crate::component::props_of_list;
use crate::component::CompModel;
use crate::property::PropModel;
use crate::strmap::map_insert;

verus! {

broadcast use vstd::seq::group_seq_axioms;

/// `j` if it lies in `[lo, hi]`, else `hi`; only there to make the measures
/// of the spec functions below obviously well-founded. The accompanying
/// lemmas show the clip never fires.
pub open spec fn clip_at(j: int, lo: int, hi: int) -> int {
    if lo <= j <= hi {
        j
    } else {
        hi
    }
}

/// The next logical character of `s` at or after raw position `i`, paired
/// with the raw position just past it. CRs are skipped; a LF whose next
/// logical character is a space or tab folds away together with it;
/// otherwise a LF is a logical `\n`; anything else stands for itself.
pub open spec fn lh(s: Seq<char>, i: int) -> Option<(char, int)>
    decreases s.len() - i,
{
    if i < 0 || i >= s.len() {
        None
    } else if s[i] == '\r' {
        lh(s, i + 1)
    } else if s[i] == '\n' {
        match lh(s, i + 1) {
            Some((c, j)) => {
                if c == ' ' || c == '\t' {
                    lh(s, clip_at(j, i + 2, s.len() as int))
                } else {
                    Some(('\n', i + 1))
                }
            }
            None => Some(('\n', i + 1)),
        }
    } else {
        Some((s[i], i + 1))
    }
}

/// A logical character always sits inside the input, consumes at least one
/// raw character, and is never a CR.
pub proof fn lemma_lh(s: Seq<char>, i: int)
    ensures
        match lh(s, i) {
            Some((c, j)) => 0 <= i < j <= s.len() && c != '\r',
            None => true,
        },
    decreases s.len() - i,
{
    if i < 0 || i >= s.len() {
    } else if s[i] == '\r' {
        lemma_lh(s, i + 1);
    } else if s[i] == '\n' {
        lemma_lh(s, i + 1);
        match lh(s, i + 1) {
            Some((c, j)) => {
                if c == ' ' || c == '\t' {
                    lemma_lh(s, clip_at(j, i + 2, s.len() as int));
                }
            }
            None => {}
        }
    } else {
    }
}

/// The stream of logical characters from raw position `i` on.
pub open spec fn stream(s: Seq<char>, i: int) -> Seq<char>
    decreases s.len() - i,
{
    match lh(s, i) {
        None => Seq::empty(),
        Some((c, j)) => seq![c] + stream(s, clip_at(j, i + 1, s.len() as int)),
    }
}

/// Unfolds one step of [`stream`] with the clip removed.
pub proof fn lemma_stream_step(s: Seq<char>, i: int)
    requires
        lh(s, i) is Some,
    ensures
        stream(s, i) == seq![lh(s, i)->Some_0.0] + stream(s, lh(s, i)->Some_0.1),
        stream(s, i).len() > 0,
        stream(s, i)[0] == lh(s, i)->Some_0.0,
{
    lemma_lh(s, i);
}

/// The raw position reached after consuming `n` logical characters.
pub open spec fn advance(s: Seq<char>, i: int, n: int) -> int
    decreases n,
{
    if n <= 0 {
        i
    } else {
        match lh(s, i) {
            None => i,
            Some((c, j)) => advance(s, j, n - 1),
        }
    }
}

/// Advancing one more step means taking one logical character from the
/// position already reached.
pub proof fn lemma_advance_snoc(s: Seq<char>, i: int, n: int)
    requires
        0 <= n,
    ensures
        advance(s, i, n + 1) == (match lh(s, advance(s, i, n)) {
            None => advance(s, i, n),
            Some((c, j)) => j,
        }),
    decreases n,
{
    reveal_with_fuel(advance, 2);
    if n > 0 {
        match lh(s, i) {
            None => {}
            Some((c, j)) => {
                lemma_advance_snoc(s, j, n - 1);
            }
        }
    }
}

/// The text of the longest logical-character run satisfying `p` from `i`.
pub open spec fn twhile_txt(s: Seq<char>, i: int, p: spec_fn(char) -> bool) -> Seq<char>
    decreases s.len() - i,
{
    match lh(s, i) {
        Some((c, j)) => {
            if p(c) {
                seq![c] + twhile_txt(s, clip_at(j, i + 1, s.len() as int), p)
            } else {
                Seq::empty()
            }
        }
        None => Seq::empty(),
    }
}

/// The raw position just past that run.
pub open spec fn twhile_end(s: Seq<char>, i: int, p: spec_fn(char) -> bool) -> int
    decreases s.len() - i,
{
    match lh(s, i) {
        Some((c, j)) => {
            if p(c) {
                twhile_end(s, clip_at(j, i + 1, s.len() as int), p)
            } else {
                i
            }
        }
        None => i,
    }
}

/// Bounds for the take-while run, and: the run is empty exactly when the
/// position does not move.
pub proof fn lemma_twhile(s: Seq<char>, i: int, p: spec_fn(char) -> bool)
    requires
        0 <= i <= s.len(),
    ensures
        i <= twhile_end(s, i, p) <= s.len(),
        (twhile_txt(s, i, p).len() == 0) == (twhile_end(s, i, p) == i),
    decreases s.len() - i,
{
    match lh(s, i) {
        Some((c, j)) => {
            lemma_lh(s, i);
            if p(c) {
                lemma_twhile(s, j, p);
                if twhile_end(s, j, p) == i {
                    // impossible: it is at least j > i
                }
            }
        }
        None => {}
    }
}

/// Characterizes the take-while run as a prefix of the stream: a prefix all
/// of whose characters satisfy `p`, followed (if anything follows) by a
/// character that does not, is exactly the take-while run, and the position
/// after it is `advance` by its length.
pub proof fn lemma_twhile_characterize(s: Seq<char>, i: int, p: spec_fn(char) -> bool, n: int)
    requires
        0 <= i <= s.len(),
        0 <= n <= stream(s, i).len(),
        forall|k: int| 0 <= k < n ==> p(stream(s, i)[k]),
        n < stream(s, i).len() ==> !p(stream(s, i)[n as int]),
    ensures
        twhile_txt(s, i, p) == stream(s, i).take(n),
        twhile_end(s, i, p) == advance(s, i, n),
    decreases n, s.len() - i,
{
    match lh(s, i) {
        None => {
            assert(stream(s, i).len() == 0);
            assert(stream(s, i).take(n) =~= Seq::<char>::empty());
        }
        Some((c, j)) => {
            lemma_lh(s, i);
            lemma_stream_step(s, i);
            if n == 0 {
                assert(!p(c));
                assert(stream(s, i).take(0) =~= Seq::<char>::empty());
            } else {
                assert(p(c));
                let st = stream(s, i);
                let stj = stream(s, j);
                assert forall|k: int| 0 <= k < n - 1 implies p(stj[k]) by {
                    assert(st[k + 1] == stj[k]);
                }
                if n - 1 < stj.len() {
                    assert(st[n as int] == stj[n - 1]);
                }
                lemma_twhile_characterize(s, j, p, n - 1);
                assert(twhile_txt(s, i, p) =~= st.take(n));
            }
        }
    }
}

/// The raw position after consuming every consecutive logical newline.
pub open spec fn skip_eols(s: Seq<char>, i: int) -> int
    decreases s.len() - i,
{
    match lh(s, i) {
        Some((c, j)) => {
            if c == '\n' {
                skip_eols(s, clip_at(j, i + 1, s.len() as int))
            } else {
                i
            }
        }
        None => i,
    }
}

/// Skipping newlines stays inside the input.
pub proof fn lemma_skip_eols(s: Seq<char>, i: int)
    requires
        0 <= i <= s.len(),
    ensures
        i <= skip_eols(s, i) <= s.len(),
    decreases s.len() - i,
{
    match lh(s, i) {
        Some((c, j)) => {
            lemma_lh(s, i);
            if c == '\n' {
                lemma_skip_eols(s, j);
            }
        }
        None => {}
    }
}

/// A property, group or parameter name: a nonempty run of letters, digits
/// and hyphens.
pub open spec fn sp_name(s: Seq<char>, i: int) -> Option<(Seq<char>, int)> {
    let p = |c: char| is_name_char(c);
    let txt = twhile_txt(s, i, p);
    if txt.len() == 0 {
        None
    } else {
        Some((txt, twhile_end(s, i, p)))
    }
}

/// A name is nonempty and moves the position forward.
pub proof fn lemma_sp_name(s: Seq<char>, i: int)
    requires
        0 <= i <= s.len(),
    ensures
        match sp_name(s, i) {
            Some((t, j)) => t.len() > 0 && i < j <= s.len(),
            None => true,
        },
{
    lemma_twhile(s, i, |c: char| is_name_char(c));
}

/// A speculative property group: a name followed by a `.`, which is
/// consumed. Anything else means "no group" and the position stays put.
pub open spec fn sp_group(s: Seq<char>, i: int) -> Option<(Seq<char>, int)> {
    match sp_name(s, i) {
        Some((g, j)) => match lh(s, j) {
            Some((c, k)) => {
                if c == '.' {
                    Some((g, k))
                } else {
                    None
                }
            }
            None => None,
        },
        None => None,
    }
}

/// A group moves the position forward.
pub proof fn lemma_sp_group(s: Seq<char>, i: int)
    requires
        0 <= i <= s.len(),
    ensures
        match sp_group(s, i) {
            Some((g, j)) => i < j <= s.len(),
            None => true,
        },
{
    lemma_sp_name(s, i);
    match sp_name(s, i) {
        Some((g, j)) => {
            lemma_lh(s, j);
        }
        None => {}
    }
}

/// The character class of an unquoted parameter value.
pub open spec fn is_unquoted_char(c: char) -> bool {
    is_qsafe_char(c) && c != ';' && c != ':'
}

/// A parameter value: either a double-quoted run of qsafe characters, whose
/// closing quote must be present, or an unquoted (possibly empty) run that
/// additionally excludes `;` and `:`. `None` means a missing closing quote.
pub open spec fn sp_param_value(s: Seq<char>, i: int) -> Option<(Seq<char>, int)> {
    let quoted = match lh(s, i) {
        Some((c, j)) => if c == '"' {
            Some(j)
        } else {
            None
        },
        None => None,
    };
    match quoted {
        Some(j) => {
            let p = |c: char| is_qsafe_char(c);
            let v = twhile_txt(s, j, p);
            let e = twhile_end(s, j, p);
            match lh(s, e) {
                Some((c2, k)) => {
                    if c2 == '"' {
                        Some((v, k))
                    } else {
                        None
                    }
                }
                None => None,
            }
        }
        None => {
            let p = |c: char| is_unquoted_char(c);
            Some((twhile_txt(s, i, p), twhile_end(s, i, p)))
        }
    }
}

/// A parameter value never moves backwards.
pub proof fn lemma_sp_param_value(s: Seq<char>, i: int)
    requires
        0 <= i <= s.len(),
    ensures
        match sp_param_value(s, i) {
            Some((v, e)) => i <= e <= s.len(),
            None => true,
        },
{
    lemma_lh(s, i);
    match lh(s, i) {
        Some((c, j)) => {
            if c == '"' {
                lemma_twhile(s, j, |c: char| is_qsafe_char(c));
                lemma_lh(s, twhile_end(s, j, |c: char| is_qsafe_char(c)));
            } else {
                lemma_twhile(s, i, |c: char| is_unquoted_char(c));
            }
        }
        None => {
            lemma_twhile(s, i, |c: char| is_unquoted_char(c));
        }
    }
}

/// One `name[=value]` parameter. `None` is a hard failure of the value.
pub open spec fn sp_param(s: Seq<char>, i: int) -> Option<((Seq<char>, Seq<char>), int)> {
    match sp_name(s, i) {
        None => None,
        Some((nm, k)) => match lh(s, k) {
            Some((c, m)) => {
                if c == '=' {
                    match sp_param_value(s, m) {
                        Some((v, e)) => Some(((nm, v), e)),
                        None => None,
                    }
                } else {
                    Some(((nm, Seq::empty()), k))
                }
            }
            None => Some(((nm, Seq::empty()), k)),
        },
    }
}

/// A parsed parameter moves the position forward.
pub proof fn lemma_sp_param(s: Seq<char>, i: int)
    requires
        0 <= i <= s.len(),
    ensures
        match sp_param(s, i) {
            Some((nv, e)) => i < e <= s.len(),
            None => true,
        },
{
    lemma_sp_name(s, i);
    match sp_name(s, i) {
        None => {}
        Some((nm, k)) => {
            lemma_lh(s, k);
            match lh(s, k) {
                Some((c, m)) => {
                    if c == '=' {
                        lemma_sp_param_value(s, m);
                    }
                }
                None => {}
            }
        }
    }
}

/// The parameter list: as long as a `;` follows, one parameter is read. A
/// failing parameter ends the list: a failing name leaves the position after
/// the `;`, a failing (quoted) value leaves it after the parameter name.
/// Returns the parameters in reading order and the end position.
pub open spec fn sp_params(s: Seq<char>, i: int) -> (Seq<(Seq<char>, Seq<char>)>, int)
    decreases s.len() - i,
{
    match lh(s, i) {
        Some((c, j0)) => {
            if c == ';' {
                let j = clip_at(j0, i + 1, s.len() as int);
                match sp_name(s, j) {
                    None => (Seq::empty(), j),
                    Some((nm, k)) => match lh(s, k) {
                        Some((c2, m)) => {
                            if c2 == '=' {
                                match sp_param_value(s, m) {
                                    None => (Seq::empty(), k),
                                    Some((v, e0)) => {
                                        let r = sp_params(s, clip_at(e0, j + 1, s.len() as int));
                                        (seq![(nm, v)] + r.0, r.1)
                                    }
                                }
                            } else {
                                let r = sp_params(s, clip_at(k, j, s.len() as int));
                                (seq![(nm, Seq::empty())] + r.0, r.1)
                            }
                        }
                        None => {
                            let r = sp_params(s, clip_at(k, j, s.len() as int));
                            (seq![(nm, Seq::empty())] + r.0, r.1)
                        }
                    },
                }
            } else {
                (Seq::empty(), i)
            }
        }
        None => (Seq::empty(), i),
    }
}

/// The parameter list never moves backwards.
pub proof fn lemma_sp_params(s: Seq<char>, i: int)
    requires
        0 <= i <= s.len(),
    ensures
        i <= sp_params(s, i).1 <= s.len(),
    decreases s.len() - i,
{
    lemma_lh(s, i);
    match lh(s, i) {
        Some((c, j0)) => {
            if c == ';' {
                let j = clip_at(j0, i + 1, s.len() as int);
                lemma_sp_name(s, j);
                match sp_name(s, j) {
                    None => {}
                    Some((nm, k)) => {
                        lemma_lh(s, k);
                        match lh(s, k) {
                            Some((c2, m)) => {
                                if c2 == '=' {
                                    lemma_sp_param_value(s, m);
                                    match sp_param_value(s, m) {
                                        None => {}
                                        Some((v, e0)) => {
                                            lemma_sp_params(
                                                s,
                                                clip_at(e0, j + 1, s.len() as int),
                                            );
                                        }
                                    }
                                } else {
                                    lemma_sp_params(s, clip_at(k, j, s.len() as int));
                                }
                            }
                            None => {
                                lemma_sp_params(s, clip_at(k, j, s.len() as int));
                            }
                        }
                    }
                }
            }
        }
        None => {}
    }
}

/// One step of the parameter list: after the `;`, a successful parameter
/// prepends itself to the rest of the list, a failed one ends it at the
/// position the failure leaves behind.
pub proof fn lemma_sp_params_step(s: Seq<char>, i: int)
    requires
        0 <= i <= s.len(),
        lh(s, i) is Some,
        lh(s, i)->Some_0.0 == ';',
    ensures
        ({
            let j = lh(s, i)->Some_0.1;
            match sp_param(s, j) {
                Some((nv, e)) => sp_params(s, i) == (seq![nv] + sp_params(s, e).0, sp_params(
                    s,
                    e,
                ).1),
                None => sp_params(s, i) == (
                    Seq::<(Seq<char>, Seq<char>)>::empty(),
                    match sp_name(s, j) {
                        Some((nm, k)) => k,
                        None => j,
                    },
                ),
            }
        }),
{
    lemma_lh(s, i);
    let j0 = lh(s, i)->Some_0.1;
    assert(clip_at(j0, i + 1, s.len() as int) == j0);
    lemma_sp_name(s, j0);
    match sp_name(s, j0) {
        None => {}
        Some((nm, k)) => {
            lemma_lh(s, k);
            match lh(s, k) {
                Some((c2, m)) => {
                    if c2 == '=' {
                        lemma_sp_param_value(s, m);
                        match sp_param_value(s, m) {
                            None => {}
                            Some((v, e0)) => {
                                assert(clip_at(e0, j0 + 1, s.len() as int) == e0);
                            }
                        }
                    } else {
                        assert(clip_at(k, j0, s.len() as int) == k);
                    }
                }
                None => {
                    assert(clip_at(k, j0, s.len() as int) == k);
                }
            }
        }
    }
}

/// The parameter store resulting from inserting the parameters in reading
/// order into an empty map: unique keys, last write wins.
pub open spec fn params_of(l: Seq<(Seq<char>, Seq<char>)>) -> Seq<(Seq<char>, Seq<char>)>
    decreases l.len(),
{
    if l.len() == 0 {
        Seq::empty()
    } else {
        map_insert(params_of(l.drop_last()), l.last().0, l.last().1)
    }
}

/// One more parameter in the list is one more binding in the store.
pub proof fn lemma_params_of_push(l: Seq<(Seq<char>, Seq<char>)>, nm: Seq<char>, v: Seq<char>)
    ensures
        params_of(l.push((nm, v))) == map_insert(params_of(l), nm, v),
{
    assert(l.push((nm, v)).drop_last() =~= l);
    assert(l.push((nm, v)).last() == ((nm, v)));
}

/// Whether the next logical character is a newline.
pub open spec fn at_eol(s: Seq<char>, i: int) -> bool {
    match lh(s, i) {
        Some((c, j)) => c == '\n',
        None => false,
    }
}

/// A property value: the run up to the end of the logical line, which must
/// then be terminated by a newline (or the end of the input); any further
/// blank lines are consumed silently. `None` means the line did not end
/// where it should have.
pub open spec fn sp_value(s: Seq<char>, i: int) -> Option<(Seq<char>, int)> {
    let p = |c: char| c != '\r' && c != '\n';
    let v = twhile_txt(s, i, p);
    let e = twhile_end(s, i, p);
    if e >= s.len() || at_eol(s, e) {
        Some((v, skip_eols(s, e)))
    } else {
        None
    }
}

/// A value never moves backwards.
pub proof fn lemma_sp_value(s: Seq<char>, i: int)
    requires
        0 <= i <= s.len(),
    ensures
        match sp_value(s, i) {
            Some((v, e)) => i <= e <= s.len(),
            None => true,
        },
{
    let p = |c: char| c != '\r' && c != '\n';
    lemma_twhile(s, i, p);
    lemma_skip_eols(s, twhile_end(s, i, p));
}

/// One whole property line: optional group, name, parameters, a mandatory
/// `:`, and the value with its line termination.
pub open spec fn sp_property(s: Seq<char>, i: int) -> Option<(PropModel, int)> {
    let gopt = match sp_group(s, i) {
        Some((g, j)) => Some(g),
        None => None,
    };
    let i1 = match sp_group(s, i) {
        Some((g, j)) => j,
        None => i,
    };
    match sp_name(s, i1) {
        None => None,
        Some((nm, i2)) => {
            let pr = sp_params(s, i2);
            match lh(s, pr.1) {
                Some((c, i4)) => {
                    if c == ':' {
                        match sp_value(s, i4) {
                            Some((v, i5)) => Some(
                                (
                                    PropModel {
                                        group: gopt,
                                        name: nm,
                                        params: params_of(pr.0),
                                        value: v,
                                    },
                                    i5,
                                ),
                            ),
                            None => None,
                        }
                    } else {
                        None
                    }
                }
                None => None,
            }
        }
    }
}

/// A parsed property consumes at least one logical character, and its name
/// is a nonempty run of name characters.
pub proof fn lemma_sp_property(s: Seq<char>, i: int)
    requires
        0 <= i <= s.len(),
    ensures
        match sp_property(s, i) {
            Some((p, j)) => i < j <= s.len() && p.name.len() > 0,
            None => true,
        },
{
    lemma_sp_group(s, i);
    let i1 = match sp_group(s, i) {
        Some((g, j)) => j,
        None => i,
    };
    lemma_sp_name(s, i1);
    match sp_name(s, i1) {
        None => {}
        Some((nm, i2)) => {
            lemma_sp_params(s, i2);
            let i3 = sp_params(s, i2).1;
            lemma_lh(s, i3);
            match lh(s, i3) {
                Some((c, i4)) => {
                    if c == ':' {
                        lemma_sp_value(s, i4);
                    }
                }
                None => {}
            }
        }
    }
}

/// One whole component: a `BEGIN` property whose value names the component,
/// then its items, closed by the matching `END`.
pub open spec fn sp_component(s: Seq<char>, i: int) -> Option<(CompModel, int)>
    decreases s.len() - i, 0int,
{
    match sp_property(s, i) {
        None => None,
        Some((p, j)) => {
            if p.name == "BEGIN"@ {
                match sp_items(s, clip_at(j, i + 1, s.len() as int), p.value) {
                    None => None,
                    Some((ps, cs, e)) => Some(
                        (CompModel { name: p.value, props: props_of_list(ps), subs: cs }, e),
                    ),
                }
            } else {
                None
            }
        }
    }
}

/// The items of a component named `name`: properties and nested components,
/// until the matching `END`. A `BEGIN` property is re-read as the head of a
/// nested component; an `END` must carry `name` exactly. Returns the plain
/// properties in order, the subcomponents in order, and the end position.
pub open spec fn sp_items(s: Seq<char>, i: int, name: Seq<char>) -> Option<
    (Seq<PropModel>, Seq<CompModel>, int),
>
    decreases s.len() - i, 1int,
{
    match sp_property(s, i) {
        None => None,
        Some((p, j)) => {
            if p.name == "BEGIN"@ {
                match sp_component(s, i) {
                    None => None,
                    Some((sub, k)) => {
                        match sp_items(s, clip_at(k, i + 1, s.len() as int), name) {
                            None => None,
                            Some((ps, cs, e)) => Some((ps, seq![sub] + cs, e)),
                        }
                    }
                }
            } else if p.name == "END"@ {
                if p.value == name {
                    Some((Seq::empty(), Seq::empty(), j))
                } else {
                    None
                }
            } else {
                match sp_items(s, clip_at(j, i + 1, s.len() as int), name) {
                    None => None,
                    Some((ps, cs, e)) => Some((seq![p] + ps, cs, e)),
                }
            }
        }
    }
}

/// No property starts at the end of the input.
pub proof fn lemma_sp_property_none_at_end(s: Seq<char>)
    ensures
        sp_property(s, s.len() as int) is None,
{
    let i = s.len() as int;
    let p = |c: char| is_name_char(c);
    assert(lh(s, i) is None);
    assert(twhile_txt(s, i, p).len() == 0);
    assert(sp_name(s, i) is None);
}

/// A parsed component, and a parsed item run, move the position forward and
/// end inside the input.
pub proof fn lemma_sp_component(s: Seq<char>, i: int)
    requires
        0 <= i <= s.len(),
    ensures
        match sp_component(s, i) {
            Some((m, e)) => i < e <= s.len(),
            None => true,
        },
        forall|name: Seq<char>|
            match #[trigger] sp_items(s, i, name) {
                Some((ps, cs, e)) => i < e <= s.len(),
                None => true,
            },
    decreases s.len() - i, 2int,
{
    lemma_sp_property(s, i);
    lemma_sp_property_none_at_end(s);
    match sp_property(s, i) {
        None => {}
        Some((p, j)) => {
            if j < s.len() {
                lemma_sp_component(s, j);
            }
            if p.name == "BEGIN"@ {
                assert(clip_at(j, i + 1, s.len() as int) == j);
                match sp_items(s, j, p.value) {
                    None => {
                        assert(sp_component(s, i) is None);
                    }
                    Some((ps, cs, e)) => {
                        assert(i < e <= s.len());
                    }
                }
            }
            assert forall|name: Seq<char>|
                match #[trigger] sp_items(s, i, name) {
                    Some((ps2, cs2, e2)) => i < e2 <= s.len(),
                    None => true,
                } by {
                if p.name == "BEGIN"@ {
                    match sp_component(s, i) {
                        None => {
                            assert(sp_items(s, i, name) is None);
                        }
                        Some((sub, k)) => {
                            assert(i < k <= s.len());
                            if k < s.len() {
                                lemma_sp_component(s, k);
                            }
                            assert(clip_at(k, i + 1, s.len() as int) == k);
                            match sp_items(s, k, name) {
                                None => {
                                    assert(sp_items(s, i, name) is None);
                                }
                                Some((ps2, cs2, e2)) => {
                                    assert(k < e2 <= s.len());
                                    assert(sp_items(s, i, name) == Some(
                                        ((ps2, seq![sub] + cs2, e2)),
                                    ));
                                }
                            }
                        }
                    }
                } else if p.name == "END"@ {
                    if p.value == name {
                        assert(sp_items(s, i, name) == Some(
                            ((Seq::<PropModel>::empty(), Seq::<CompModel>::empty(), j)),
                        ));
                    } else {
                        assert(sp_items(s, i, name) is None);
                    }
                } else {
                    assert(clip_at(j, i + 1, s.len() as int) == j);
                    match sp_items(s, j, name) {
                        None => {
                            assert(sp_items(s, i, name) is None);
                        }
                        Some((ps2, cs2, e2)) => {
                            assert(j < e2 <= s.len());
                            assert(sp_items(s, i, name) == Some(((seq![p] + ps2, cs2, e2))));
                        }
                    }
                }
            }
        }
    }
}

/// The description built for a missing mandatory character: the expected
/// character, and what stood in its place (or the end of the line).
pub open spec fn expected_char_desc(c: char, found: Option<(char, int)>) -> Seq<char> {
    match found {
        Some((d, j)) => "Expected "@ + seq![c] + ", found "@ + seq![d],
        None => "Expected "@ + seq![c] + ", found EOL"@,
    }
}

/// The description of a failing parameter parse: a missing name (wrapping
/// the name error), or a quoted value missing its closing quote.
pub open spec fn sp_param_err_desc(s: Seq<char>, i: int) -> Seq<char> {
    match sp_name(s, i) {
        None => "No param name found: "@ + "No property name found."@,
        Some((nm, k)) => {
            let m = match lh(s, k) {
                Some((c, m0)) => m0,
                None => k,
            };
            let j = match lh(s, m) {
                Some((c, j0)) => j0,
                None => m,
            };
            expected_char_desc('"', lh(s, twhile_end(s, j, |c: char| is_qsafe_char(c))))
        },
    }
}

/// The description of a failing property parse: a missing name, a missing
/// `:`, or a missing line termination.
pub open spec fn sp_property_err_desc(s: Seq<char>, i: int) -> Seq<char> {
    let i1 = match sp_group(s, i) {
        Some((g, j)) => j,
        None => i,
    };
    match sp_name(s, i1) {
        None => "No property name found."@,
        Some((nm, i2)) => {
            let i3 = sp_params(s, i2).1;
            match lh(s, i3) {
                Some((c, i4)) => {
                    if c == ':' {
                        "Expected EOL."@
                    } else {
                        expected_char_desc(':', lh(s, i3))
                    }
                },
                None => expected_char_desc(':', lh(s, i3)),
            }
        },
    }
}

/// Where a failing property parse leaves the cursor: a missing name moves
/// nothing past the group, a missing `:` stops after the parameters, a
/// missing line termination stops after the value text.
pub open spec fn sp_property_err_pos(s: Seq<char>, i: int) -> int {
    let i1 = match sp_group(s, i) {
        Some((g, j)) => j,
        None => i,
    };
    match sp_name(s, i1) {
        None => i1,
        Some((nm, i2)) => {
            let i3 = sp_params(s, i2).1;
            match lh(s, i3) {
                Some((c, i4)) => {
                    if c == ':' {
                        twhile_end(s, i4, |c2: char| c2 != '\r' && c2 != '\n')
                    } else {
                        i3
                    }
                },
                None => i3,
            }
        },
    }
}

/// The description and cursor position of a failing component parse: a
/// failing property propagates its own error, a first property that is not
/// `BEGIN` restores the entry position, and the items carry the rest.
pub open spec fn sp_comp_err(s: Seq<char>, i: int) -> (Seq<char>, int)
    decreases s.len() - i, 0int,
{
    match sp_property(s, i) {
        None => (sp_property_err_desc(s, i), sp_property_err_pos(s, i)),
        Some((p, j)) => {
            if p.name == "BEGIN"@ {
                sp_items_err(s, clip_at(j, i + 1, s.len() as int), p.value, i)
            } else {
                ("Expected BEGIN tag."@, i)
            }
        },
    }
}

/// The description and cursor position of a failing item run inside the
/// component that opened at `start` under `name`: a failing property or
/// nested component propagates its own error, a mismatched `END` names both
/// tags and restores the outer start. On a successful run the value is
/// meaningless.
pub open spec fn sp_items_err(s: Seq<char>, i: int, name: Seq<char>, start: int) -> (
    Seq<char>,
    int,
)
    decreases s.len() - i, 1int,
{
    match sp_property(s, i) {
        None => (sp_property_err_desc(s, i), sp_property_err_pos(s, i)),
        Some((p, j)) => {
            if p.name == "BEGIN"@ {
                match sp_component(s, i) {
                    None => sp_comp_err(s, i),
                    Some((sub, e)) => sp_items_err(
                        s,
                        clip_at(e, i + 1, s.len() as int),
                        name,
                        start,
                    ),
                }
            } else if p.name == "END"@ {
                if p.value == name {
                    (Seq::empty(), i)
                } else {
                    ("Mismatched tags: BEGIN:"@ + name + " vs END:"@ + p.value, start)
                }
            } else {
                sp_items_err(s, clip_at(j, i + 1, s.len() as int), name, start)
            }
        },
    }
}

} // verus!
