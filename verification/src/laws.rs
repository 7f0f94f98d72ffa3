//! Properties that relate several functions of the library, stated and
//! proved once.

use vstd::prelude::*;

use crate::chars::octet_len;
use crate::component::lemma_octet_len_nonneg;
use crate::component::lemma_take_bytes;
use crate::component::spec_fold_line;
use crate::component::take_bytes;
use crate::grammar::clip_at;
use crate::grammar::at_eol;
use crate::grammar::lemma_lh;
use crate::grammar::sp_value;
use crate::grammar::lh;
use crate::grammar::twhile_end;
use crate::grammar::twhile_txt;
use crate::property::spec_escape;
use crate::property::spec_replace;
use crate::property::spec_unescape;

verus! {

broadcast use vstd::seq::group_seq_axioms;

/// Text with the fold markers removed: a CRLF or a lone LF followed by a
/// space or tab vanishes together with that space or tab.
pub open spec fn spec_unfold(s: Seq<char>) -> Seq<char>
    decreases s.len(),
{
    if s.len() == 0 {
        Seq::empty()
    } else if s.len() >= 3 && s[0] == '\r' && s[1] == '\n' && (s[2] == ' ' || s[2] == '\t') {
        spec_unfold(s.skip(3))
    } else if s.len() >= 2 && s[0] == '\n' && (s[1] == ' ' || s[1] == '\t') {
        spec_unfold(s.skip(2))
    } else {
        seq![s[0]] + spec_unfold(s.drop_first())
    }
}

/// Unfolding walks over a prefix free of CR and LF unchanged.
proof fn lemma_unfold_clean_prefix(a: Seq<char>, b: Seq<char>)
    requires
        forall|i: int| 0 <= i < a.len() ==> a[i] != '\r' && a[i] != '\n',
    ensures
        spec_unfold(a + b) == a + spec_unfold(b),
    decreases a.len(),
{
    if a.len() == 0 {
        assert(a + b =~= b);
        assert(a + spec_unfold(b) =~= spec_unfold(b));
    } else {
        let s = a + b;
        assert(s[0] == a[0]);
        assert(s.drop_first() =~= a.drop_first() + b);
        assert forall|i: int| 0 <= i < a.drop_first().len() implies a.drop_first()[i] != '\r'
            && a.drop_first()[i] != '\n' by {
            assert(a.drop_first()[i] == a[i + 1]);
        }
        lemma_unfold_clean_prefix(a.drop_first(), b);
        assert(seq![a[0]] + (a.drop_first() + spec_unfold(b)) =~= a + spec_unfold(b));
    }
}

/// Law: for a line free of CR and LF, unfolding the folded line gives the
/// line back exactly. Folding splits between characters only, and
/// [`lemma_take_bytes`] bounds each emitted chunk by the 75-byte budget.
pub proof fn lemma_fold_unfold(s: Seq<char>)
    requires
        forall|i: int| 0 <= i < s.len() ==> s[i] != '\r' && s[i] != '\n',
    ensures
        spec_unfold(spec_fold_line(s)) == s,
    decreases s.len(),
{
    if octet_len(s) <= 75 {
        lemma_unfold_clean_prefix(s, Seq::empty());
        assert(s + Seq::<char>::empty() =~= s);
        assert(spec_unfold(Seq::<char>::empty()) =~= Seq::<char>::empty());
        assert(s + spec_unfold(Seq::<char>::empty()) =~= s);
    } else {
        lemma_take_bytes(s, 75);
        if s.len() == 0 {
            assert(octet_len(s) == 0);
        }
        let k = take_bytes(s, 75);
        let chunk = s.take(k);
        let rest = s.skip(k);
        assert(k >= 1);
        assert forall|i: int| 0 <= i < rest.len() implies rest[i] != '\r' && rest[i] != '\n' by {
            assert(rest[i] == s[i + k]);
        }
        assert forall|i: int| 0 <= i < chunk.len() implies chunk[i] != '\r' && chunk[i]
            != '\n' by {
            assert(chunk[i] == s[i]);
        }
        lemma_fold_unfold(rest);
        let marker_rest = seq!['\r', '\n', ' '] + spec_fold_line(rest);
        lemma_unfold_clean_prefix(chunk, marker_rest);
        assert(spec_fold_line(s) =~= chunk + marker_rest);
        assert(marker_rest[0] == '\r');
        assert(marker_rest[1] == '\n');
        assert(marker_rest[2] == ' ');
        assert(marker_rest.skip(3) =~= spec_fold_line(rest));
        assert(spec_unfold(marker_rest) == spec_unfold(spec_fold_line(rest)));
        assert(chunk + rest =~= s);
    }
}

/// Whether `pat` occurs as a contiguous subsequence of `s`.
pub open spec fn contains_seq(s: Seq<char>, pat: Seq<char>) -> bool
    decreases s.len(),
{
    if s.len() == 0 {
        false
    } else if pat.is_prefix_of(s) {
        true
    } else {
        contains_seq(s.drop_first(), pat)
    }
}

/// A replacement whose pattern never occurs changes nothing.
proof fn lemma_replace_id(s: Seq<char>, pat: Seq<char>, rep: Seq<char>)
    requires
        pat.len() > 0,
        !contains_seq(s, pat),
    ensures
        spec_replace(s, pat, rep) == s,
    decreases s.len(),
{
    if s.len() > 0 {
        lemma_replace_id(s.drop_first(), pat, rep);
        assert(seq![s[0]] + s.drop_first() =~= s);
    }
}

/// A one-character pattern cannot straddle a seam, so such a replacement
/// distributes over concatenation.
proof fn lemma_hom1(a: Seq<char>, b: Seq<char>, pat: Seq<char>, rep: Seq<char>)
    requires
        pat.len() == 1,
    ensures
        spec_replace(a + b, pat, rep) == spec_replace(a, pat, rep) + spec_replace(b, pat, rep),
    decreases a.len(),
{
    if a.len() == 0 {
        assert(a + b =~= b);
        assert(spec_replace(a, pat, rep) + spec_replace(b, pat, rep) =~= spec_replace(
            b,
            pat,
            rep,
        ));
    } else {
        let s = a + b;
        assert(s[0] == a[0]);
        assert(pat.is_prefix_of(s) == (s[0] == pat[0])) by {
            if pat.is_prefix_of(s) {
                assert(pat[0] == s.subrange(0, 1)[0]);
            }
            if s[0] == pat[0] {
                assert(pat =~= s.subrange(0, 1));
            }
        }
        assert(pat.is_prefix_of(a) == (a[0] == pat[0])) by {
            if pat.is_prefix_of(a) {
                assert(pat[0] == a.subrange(0, 1)[0]);
            }
            if a[0] == pat[0] {
                assert(pat =~= a.subrange(0, 1));
            }
        }
        lemma_hom1(a.drop_first(), b, pat, rep);
        assert(s.skip(1) =~= a.drop_first() + b);
        if s[0] == pat[0] {
            assert(spec_replace(s, pat, rep) == rep + spec_replace(a.drop_first() + b, pat, rep));
            assert(spec_replace(a, pat, rep) == rep + spec_replace(a.drop_first(), pat, rep));
            assert(rep + (spec_replace(a.drop_first(), pat, rep) + spec_replace(b, pat, rep))
                =~= (rep + spec_replace(a.drop_first(), pat, rep)) + spec_replace(b, pat, rep));
        } else {
            assert(s.drop_first() =~= a.drop_first() + b);
            assert(spec_replace(s, pat, rep) == seq![s[0]] + spec_replace(
                a.drop_first() + b,
                pat,
                rep,
            ));
            assert(spec_replace(a, pat, rep) == seq![a[0]] + spec_replace(
                a.drop_first(),
                pat,
                rep,
            ));
            assert(seq![s[0]] + (spec_replace(a.drop_first(), pat, rep) + spec_replace(
                b,
                pat,
                rep,
            )) =~= (seq![a[0]] + spec_replace(a.drop_first(), pat, rep)) + spec_replace(
                b,
                pat,
                rep,
            ));
        }
    }
}

/// A one-character replacement on a single character.
proof fn lemma_replace_single(c: char, pat: Seq<char>, rep: Seq<char>)
    requires
        pat.len() == 1,
    ensures
        spec_replace(seq![c], pat, rep) == (if c == pat[0] {
            rep
        } else {
            seq![c]
        }),
{
    let s = seq![c];
    assert(s.len() == 1);
    if c == pat[0] {
        assert(pat =~= s.subrange(0, 1));
        assert(pat.is_prefix_of(s));
        assert(spec_replace(s, pat, rep) == rep + spec_replace(s.skip(1), pat, rep));
        assert(s.skip(1) =~= Seq::<char>::empty());
        assert(s.skip(1).len() == 0);
        assert(spec_replace(s.skip(1), pat, rep) == s.skip(1));
        assert(rep + s.skip(1) =~= rep);
    } else {
        if pat.is_prefix_of(s) {
            assert(pat[0] == s.subrange(0, 1)[0]);
        }
        assert(spec_replace(s, pat, rep) == seq![s[0]] + spec_replace(s.drop_first(), pat, rep));
        assert(s.drop_first().len() == 0);
        assert(spec_replace(s.drop_first(), pat, rep) == s.drop_first());
        assert(seq![c] + s.drop_first() =~= seq![c]);
    }
}

/// A two-character pattern is no prefix where the first characters already
/// disagree, or the text is too short, or the second characters disagree.
proof fn lemma_not_prefix2(s: Seq<char>, pat: Seq<char>)
    requires
        pat.len() == 2,
        s.len() == 0 || s[0] != pat[0] || s.len() == 1 || s[1] != pat[1],
    ensures
        !pat.is_prefix_of(s),
{
    if pat.is_prefix_of(s) {
        assert(pat[0] == s.subrange(0, 2)[0]);
        assert(pat[1] == s.subrange(0, 2)[1]);
    }
}

/// A two-character pattern matching at the front gets replaced there.
proof fn lemma_match2(s: Seq<char>, pat: Seq<char>, rep: Seq<char>)
    requires
        pat.len() == 2,
        s.len() >= 2,
        s[0] == pat[0],
        s[1] == pat[1],
    ensures
        pat.is_prefix_of(s),
        spec_replace(s, pat, rep) == rep + spec_replace(s.skip(2), pat, rep),
{
    assert(pat =~= s.subrange(0, 2));
}

/// Escaping as one pass over the text, for text free of CRLF: special
/// characters get their backslash, newlines become the two characters `\n`,
/// everything else stands for itself.
pub open spec fn esc1(s: Seq<char>) -> Seq<char>
    decreases s.len(),
{
    if s.len() == 0 {
        Seq::empty()
    } else if s[0] == '\\' {
        seq!['\\', '\\'] + esc1(s.drop_first())
    } else if s[0] == ';' {
        seq!['\\', ';'] + esc1(s.drop_first())
    } else if s[0] == ',' {
        seq!['\\', ','] + esc1(s.drop_first())
    } else if s[0] == '\n' {
        seq!['\\', 'n'] + esc1(s.drop_first())
    } else {
        seq![s[0]] + esc1(s.drop_first())
    }
}

/// The backslash-insertion stages of escaping, as one pass: `\`, `;` and `,`
/// get their backslash, everything else stands for itself.
spec fn esc_bs(s: Seq<char>) -> Seq<char>
    decreases s.len(),
{
    if s.len() == 0 {
        Seq::empty()
    } else if s[0] == '\\' {
        seq!['\\', '\\'] + esc_bs(s.drop_first())
    } else if s[0] == ';' {
        seq!['\\', ';'] + esc_bs(s.drop_first())
    } else if s[0] == ',' {
        seq!['\\', ','] + esc_bs(s.drop_first())
    } else {
        seq![s[0]] + esc_bs(s.drop_first())
    }
}

/// The first three replacement stages of escaping act as the single pass
/// [`esc_bs`].
proof fn lemma_esc_bs(s: Seq<char>)
    ensures
        spec_replace(
            spec_replace(
                spec_replace(s, seq!['\\'], seq!['\\', '\\']),
                seq![';'],
                seq!['\\', ';'],
            ),
            seq![','],
            seq!['\\', ','],
        ) == esc_bs(s),
    decreases s.len(),
{
    let r2 = |x: Seq<char>| spec_replace(x, seq!['\\'], seq!['\\', '\\']);
    let r3 = |x: Seq<char>| spec_replace(x, seq![';'], seq!['\\', ';']);
    let r4 = |x: Seq<char>| spec_replace(x, seq![','], seq!['\\', ',']);
    if s.len() == 0 {
    } else {
        let c = s[0];
        let t = s.drop_first();
        lemma_esc_bs(t);
        assert(s =~= seq![c] + t);
        lemma_hom1(seq![c], t, seq!['\\'], seq!['\\', '\\']);
        lemma_replace_single(c, seq!['\\'], seq!['\\', '\\']);
        let h2: Seq<char> = if c == '\\' {
            seq!['\\', '\\']
        } else {
            seq![c]
        };
        assert(r2(s) == h2 + r2(t));
        lemma_hom1(h2, r2(t), seq![';'], seq!['\\', ';']);
        let h3: Seq<char> = if c == '\\' {
            seq!['\\', '\\']
        } else if c == ';' {
            seq!['\\', ';']
        } else {
            seq![c]
        };
        assert(r3(h2) == h3) by {
            if c == '\\' {
                assert(h2 =~= seq!['\\'] + seq!['\\']);
                lemma_hom1(seq!['\\'], seq!['\\'], seq![';'], seq!['\\', ';']);
                lemma_replace_single('\\', seq![';'], seq!['\\', ';']);
                assert(seq!['\\'] + seq!['\\'] =~= h3);
            } else {
                lemma_replace_single(c, seq![';'], seq!['\\', ';']);
                if c == ';' {
                    assert(r3(h2) == seq!['\\', ';']);
                }
            }
        }
        assert(r3(r2(s)) == h3 + r3(r2(t)));
        lemma_hom1(h3, r3(r2(t)), seq![','], seq!['\\', ',']);
        let h4: Seq<char> = if c == '\\' {
            seq!['\\', '\\']
        } else if c == ';' {
            seq!['\\', ';']
        } else if c == ',' {
            seq!['\\', ',']
        } else {
            seq![c]
        };
        assert(r4(h3) == h4) by {
            if c == '\\' {
                assert(h3 =~= seq!['\\'] + seq!['\\']);
                lemma_hom1(seq!['\\'], seq!['\\'], seq![','], seq!['\\', ',']);
                lemma_replace_single('\\', seq![','], seq!['\\', ',']);
                assert(seq!['\\'] + seq!['\\'] =~= h4);
            } else if c == ';' {
                assert(h3 =~= seq!['\\'] + seq![';']);
                lemma_hom1(seq!['\\'], seq![';'], seq![','], seq!['\\', ',']);
                lemma_replace_single('\\', seq![','], seq!['\\', ',']);
                lemma_replace_single(';', seq![','], seq!['\\', ',']);
                assert(seq!['\\'] + seq![';'] =~= h4);
            } else {
                lemma_replace_single(c, seq![','], seq!['\\', ',']);
                if c == ',' {
                    assert(r4(h3) == seq!['\\', ',']);
                }
            }
        }
        assert(r4(r3(r2(s))) == h4 + r4(r3(r2(t))));
        assert(esc_bs(s) == h4 + esc_bs(t));
        assert(r4(r3(r2(s))) == esc_bs(s));
    }
}

/// A pass of [`esc_bs`] starts with a backslash or with the original first
/// character, and is empty only for empty input.
proof fn lemma_esc_bs_first(s: Seq<char>)
    requires
        s.len() > 0,
    ensures
        esc_bs(s).len() > 0,
        esc_bs(s)[0] == '\\' || esc_bs(s)[0] == s[0],
{
}

/// Text free of CRLF stays free of CRLF under [`esc_bs`].
proof fn lemma_esc_bs_no_crlf(s: Seq<char>)
    requires
        !contains_seq(s, seq!['\r', '\n']),
    ensures
        !contains_seq(esc_bs(s), seq!['\r', '\n']),
    decreases s.len(),
{
    let pat = seq!['\r', '\n'];
    if s.len() > 0 {
        let c = s[0];
        let t = s.drop_first();
        lemma_esc_bs_no_crlf(t);
        let h: Seq<char> = if c == '\\' {
            seq!['\\', '\\']
        } else if c == ';' {
            seq!['\\', ';']
        } else if c == ',' {
            seq!['\\', ',']
        } else {
            seq![c]
        };
        let e = esc_bs(s);
        assert(e == h + esc_bs(t));
        if h.len() == 2 {
            assert(e[0] == '\\');
            assert(e[1] == h[1]);
            lemma_not_prefix2(e, pat);
            assert(e.drop_first() =~= seq![h[1]] + esc_bs(t));
            assert(e.drop_first()[0] != '\r');
            lemma_not_prefix2(e.drop_first(), pat);
            assert(e.drop_first().drop_first() =~= esc_bs(t));
            lemma_contains_step(e, pat);
            lemma_contains_step(e.drop_first(), pat);
        } else {
            assert(e[0] == c);
            if c == '\r' {
                if t.len() == 0 {
                    assert(esc_bs(t).len() == 0);
                    assert(e.len() == 1);
                    lemma_not_prefix2(e, pat);
                } else {
                    lemma_esc_bs_first(t);
                    assert(e[1] == esc_bs(t)[0]);
                    assert(t[0] != '\n') by {
                        if t[0] == '\n' {
                            assert(pat =~= s.subrange(0, 2));
                            assert(pat.is_prefix_of(s));
                        }
                    }
                    assert(e[1] != '\n');
                    lemma_not_prefix2(e, pat);
                }
            } else {
                lemma_not_prefix2(e, pat);
            }
            assert(e.drop_first() =~= esc_bs(t));
            lemma_contains_step(e, pat);
        }
    }
}

/// Containment of a nonempty text splits into a front match or containment
/// in the tail.
proof fn lemma_contains_step(s: Seq<char>, pat: Seq<char>)
    requires
        s.len() > 0,
    ensures
        contains_seq(s, pat) == (pat.is_prefix_of(s) || contains_seq(s.drop_first(), pat)),
{
}

/// The final newline stage turns [`esc_bs`] output into [`esc1`] output, for
/// text free of CRLF.
proof fn lemma_esc_nl(s: Seq<char>)
    ensures
        spec_replace(esc_bs(s), seq!['\n'], seq!['\\', 'n']) == esc1(s),
    decreases s.len(),
{
    let pat = seq!['\n'];
    let rep = seq!['\\', 'n'];
    if s.len() == 0 {
    } else {
        let c = s[0];
        let t = s.drop_first();
        lemma_esc_nl(t);
        let h: Seq<char> = if c == '\\' {
            seq!['\\', '\\']
        } else if c == ';' {
            seq!['\\', ';']
        } else if c == ',' {
            seq!['\\', ',']
        } else {
            seq![c]
        };
        assert(esc_bs(s) == h + esc_bs(t));
        lemma_hom1(h, esc_bs(t), pat, rep);
        if h.len() == 2 {
            assert(h =~= seq![h[0]] + seq![h[1]]);
            lemma_hom1(seq![h[0]], seq![h[1]], pat, rep);
            lemma_replace_single(h[0], pat, rep);
            lemma_replace_single(h[1], pat, rep);
            assert(spec_replace(h, pat, rep) =~= h);
            assert(esc1(s) == h + esc1(t));
        } else {
            lemma_replace_single(c, pat, rep);
            if c == '\n' {
                assert(esc1(s) == rep + esc1(t));
            } else {
                assert(esc1(s) == seq![c] + esc1(t));
            }
        }
    }
}

/// Law (escape characterization): for text holding neither the literal pair
/// `\N` nor a CRLF, the whole escaping chain is the single pass [`esc1`].
pub proof fn lemma_escape_is_esc1(s: Seq<char>)
    requires
        !contains_seq(s, seq!['\\', 'N']),
        !contains_seq(s, seq!['\r', '\n']),
    ensures
        spec_escape(s) == esc1(s),
{
    lemma_replace_id(s, seq!['\\', 'N'], seq!['\n']);
    lemma_esc_bs(s);
    lemma_esc_bs_no_crlf(s);
    lemma_replace_id(esc_bs(s), seq!['\r', '\n'], seq!['\\', 'n']);
    lemma_esc_nl(s);
}

/// Stepping a two-character replacement over a two-character piece that
/// matches at neither of its positions.
proof fn lemma_step_over2(h: Seq<char>, rest: Seq<char>, pat: Seq<char>, rep: Seq<char>)
    requires
        h.len() == 2,
        pat.len() == 2,
        !pat.is_prefix_of(h + rest),
        !pat.is_prefix_of(seq![h[1]] + rest),
    ensures
        spec_replace(h + rest, pat, rep) == h + spec_replace(rest, pat, rep),
{
    let e = h + rest;
    assert(e.len() == 2 + rest.len());
    assert(e[0] == h[0]);
    assert(e.drop_first() =~= seq![h[1]] + rest);
    assert(spec_replace(e, pat, rep) == seq![e[0]] + spec_replace(e.drop_first(), pat, rep));
    assert((seq![h[1]] + rest).drop_first() =~= rest);
    assert((seq![h[1]] + rest)[0] == h[1]);
    assert(spec_replace(seq![h[1]] + rest, pat, rep) == seq![h[1]] + spec_replace(
        rest,
        pat,
        rep,
    ));
    assert(seq![e[0]] + (seq![h[1]] + spec_replace(rest, pat, rep)) =~= h + spec_replace(
        rest,
        pat,
        rep,
    ));
}

/// Stepping a two-character replacement over one unmatched character.
proof fn lemma_step_over1(c: char, rest: Seq<char>, pat: Seq<char>, rep: Seq<char>)
    requires
        pat.len() == 2,
        !pat.is_prefix_of(seq![c] + rest),
    ensures
        spec_replace(seq![c] + rest, pat, rep) == seq![c] + spec_replace(rest, pat, rep),
{
    let e = seq![c] + rest;
    assert(e.len() > 0);
    assert(e[0] == c);
    assert(e.drop_first() =~= rest);
}

/// Replacing a two-character piece that is the pattern itself.
proof fn lemma_match_head2(h: Seq<char>, rest: Seq<char>, pat: Seq<char>, rep: Seq<char>)
    requires
        h.len() == 2,
        pat.len() == 2,
        h[0] == pat[0],
        h[1] == pat[1],
    ensures
        spec_replace(h + rest, pat, rep) == rep + spec_replace(rest, pat, rep),
{
    let e = h + rest;
    lemma_match2(e, pat, rep);
    assert(e.skip(2) =~= rest);
}

/// A pass of [`esc1`] starts with a backslash or with the original first
/// character — never with a newline — and is empty only for empty input.
proof fn lemma_esc1_first(s: Seq<char>)
    requires
        s.len() > 0,
    ensures
        esc1(s).len() > 0,
        esc1(s)[0] == '\\' || esc1(s)[0] == s[0],
        esc1(s)[0] != '\n',
{
}

/// The head piece of [`esc1`], as a standalone fact used by the scans below.
proof fn lemma_esc1_head(s: Seq<char>)
    requires
        s.len() > 0,
    ensures
        esc1(s) == (if s[0] == '\\' {
            seq!['\\', '\\']
        } else if s[0] == ';' {
            seq!['\\', ';']
        } else if s[0] == ',' {
            seq!['\\', ',']
        } else if s[0] == '\n' {
            seq!['\\', 'n']
        } else {
            seq![s[0]]
        }) + esc1(s.drop_first()),
{
}

/// Escaped text never holds the pair `\N` when the original text held none.
proof fn lemma_esc1_no_bs_big_n(s: Seq<char>)
    requires
        !contains_seq(s, seq!['\\', 'N']),
    ensures
        !contains_seq(esc1(s), seq!['\\', 'N']),
    decreases s.len(),
{
    let pat = seq!['\\', 'N'];
    if s.len() > 0 {
        let c = s[0];
        let t = s.drop_first();
        lemma_contains_step(s, pat);
        lemma_esc1_no_bs_big_n(t);
        lemma_esc1_head(s);
        let e = esc1(s);
        let r = esc1(t);
        if c == '\\' || c == ';' || c == ',' || c == '\n' {
            let h: Seq<char> = if c == '\\' {
                seq!['\\', '\\']
            } else if c == ';' {
                seq!['\\', ';']
            } else if c == ',' {
                seq!['\\', ',']
            } else {
                seq!['\\', 'n']
            };
            assert(e == h + r);
            assert(e[1] == h[1]);
            lemma_not_prefix2(e, pat);
            assert(e.drop_first() =~= seq![h[1]] + r);
            if h[1] == '\\' {
                // the second backslash of an escaped backslash: the next
                // piece starts with `\` or with the next original
                // character, which is not an `N` here
                if r.len() > 0 {
                    lemma_esc1_first(t);
                    assert(r[0] != 'N') by {
                        if r[0] == 'N' {
                            assert(t[0] == 'N');
                            assert(pat =~= s.subrange(0, 2));
                        }
                    }
                    lemma_not_prefix2(seq![h[1]] + r, pat);
                } else {
                    lemma_not_prefix2(seq![h[1]] + r, pat);
                }
            } else {
                lemma_not_prefix2(seq![h[1]] + r, pat);
            }
            lemma_contains_step(e, pat);
            lemma_contains_step(seq![h[1]] + r, pat);
            assert((seq![h[1]] + r).drop_first() =~= r);
        } else {
            assert(e == seq![c] + r);
            assert(e[0] != '\\');
            lemma_not_prefix2(e, pat);
            lemma_contains_step(e, pat);
            assert(e.drop_first() =~= r);
        }
    }
}

/// Escaped text never holds a CRLF.
proof fn lemma_esc1_no_crlf(s: Seq<char>)
    ensures
        !contains_seq(esc1(s), seq!['\r', '\n']),
    decreases s.len(),
{
    let pat = seq!['\r', '\n'];
    if s.len() > 0 {
        let c = s[0];
        let t = s.drop_first();
        lemma_esc1_no_crlf(t);
        lemma_esc1_head(s);
        let e = esc1(s);
        let r = esc1(t);
        if c == '\\' || c == ';' || c == ',' || c == '\n' {
            let h: Seq<char> = if c == '\\' {
                seq!['\\', '\\']
            } else if c == ';' {
                seq!['\\', ';']
            } else if c == ',' {
                seq!['\\', ',']
            } else {
                seq!['\\', 'n']
            };
            assert(e == h + r);
            lemma_not_prefix2(e, pat);
            assert(e.drop_first() =~= seq![h[1]] + r);
            lemma_not_prefix2(seq![h[1]] + r, pat);
            lemma_contains_step(e, pat);
            lemma_contains_step(seq![h[1]] + r, pat);
            assert((seq![h[1]] + r).drop_first() =~= r);
        } else {
            assert(e == seq![c] + r);
            if c == '\r' && r.len() > 0 {
                lemma_esc1_first(t);
            }
            lemma_not_prefix2(e, pat);
            lemma_contains_step(e, pat);
            assert(e.drop_first() =~= r);
        }
    }
}

/// Escaped text with the newline encodings undone: `\`, `;` and `,` still
/// carry their backslash, newlines are plain again.
spec fn desc3(s: Seq<char>) -> Seq<char>
    decreases s.len(),
{
    if s.len() == 0 {
        Seq::empty()
    } else if s[0] == '\\' {
        seq!['\\', '\\'] + desc3(s.drop_first())
    } else if s[0] == ';' {
        seq!['\\', ';'] + desc3(s.drop_first())
    } else if s[0] == ',' {
        seq!['\\', ','] + desc3(s.drop_first())
    } else {
        seq![s[0]] + desc3(s.drop_first())
    }
}

/// Then with the commas unescaped as well.
spec fn desc4(s: Seq<char>) -> Seq<char>
    decreases s.len(),
{
    if s.len() == 0 {
        Seq::empty()
    } else if s[0] == '\\' {
        seq!['\\', '\\'] + desc4(s.drop_first())
    } else if s[0] == ';' {
        seq!['\\', ';'] + desc4(s.drop_first())
    } else {
        seq![s[0]] + desc4(s.drop_first())
    }
}

/// Then with the semicolons unescaped as well: only backslashes stay doubled.
spec fn desc5(s: Seq<char>) -> Seq<char>
    decreases s.len(),
{
    if s.len() == 0 {
        Seq::empty()
    } else if s[0] == '\\' {
        seq!['\\', '\\'] + desc5(s.drop_first())
    } else {
        seq![s[0]] + desc5(s.drop_first())
    }
}

/// [`desc3`] starts with a backslash or an original character, and never
/// with a comma.
proof fn lemma_desc3_first(s: Seq<char>)
    requires
        s.len() > 0,
    ensures
        desc3(s).len() > 0,
        desc3(s)[0] == '\\' || desc3(s)[0] == s[0],
        desc3(s)[0] != ',',
{
}

/// [`desc4`] starts with a backslash or an original character, and never
/// with a semicolon.
proof fn lemma_desc4_first(s: Seq<char>)
    requires
        s.len() > 0,
    ensures
        desc4(s).len() > 0,
        desc4(s)[0] == '\\' || desc4(s)[0] == s[0],
        desc4(s)[0] != ';',
{
}

/// Undoing the newline encodings of escaped text, for original text free of
/// the pair `\n` (a backslash before a literal `n`).
proof fn lemma_unesc_nl(s: Seq<char>)
    requires
        !contains_seq(s, seq!['\\', 'n']),
    ensures
        spec_replace(esc1(s), seq!['\\', 'n'], seq!['\n']) == desc3(s),
    decreases s.len(),
{
    let pat = seq!['\\', 'n'];
    let rep = seq!['\n'];
    if s.len() == 0 {
    } else {
        let c = s[0];
        let t = s.drop_first();
        lemma_contains_step(s, pat);
        lemma_unesc_nl(t);
        lemma_esc1_head(s);
        let r = esc1(t);
        if c == '\\' {
            let h = seq!['\\', '\\'];
            assert(esc1(s) == h + r);
            lemma_not_prefix2(h + r, pat);
            assert(r.len() > 0 ==> r[0] != 'n') by {
                if r.len() > 0 && r[0] == 'n' {
                    lemma_esc1_first(t);
                    assert(t[0] == 'n');
                    assert(pat =~= s.subrange(0, 2));
                }
            }
            lemma_not_prefix2(seq![h[1]] + r, pat);
            lemma_step_over2(h, r, pat, rep);
            assert(desc3(s) == h + desc3(t));
        } else if c == ';' || c == ',' {
            let h: Seq<char> = if c == ';' {
                seq!['\\', ';']
            } else {
                seq!['\\', ',']
            };
            assert(esc1(s) == h + r);
            lemma_not_prefix2(h + r, pat);
            lemma_not_prefix2(seq![h[1]] + r, pat);
            lemma_step_over2(h, r, pat, rep);
            assert(desc3(s) == h + desc3(t));
        } else if c == '\n' {
            let h = seq!['\\', 'n'];
            assert(esc1(s) == h + r);
            lemma_match_head2(h, r, pat, rep);
            assert(desc3(s) == seq!['\n'] + desc3(t));
        } else {
            assert(esc1(s) == seq![c] + r);
            lemma_not_prefix2(seq![c] + r, pat);
            lemma_step_over1(c, r, pat, rep);
            assert(desc3(s) == seq![c] + desc3(t));
        }
    }
}

/// Undoing the comma escapes.
proof fn lemma_unesc_comma(s: Seq<char>)
    ensures
        spec_replace(desc3(s), seq!['\\', ','], seq![',']) == desc4(s),
    decreases s.len(),
{
    let pat = seq!['\\', ','];
    let rep = seq![','];
    if s.len() == 0 {
    } else {
        let c = s[0];
        let t = s.drop_first();
        lemma_unesc_comma(t);
        let r = desc3(t);
        if c == '\\' || c == ';' {
            let h: Seq<char> = if c == '\\' {
                seq!['\\', '\\']
            } else {
                seq!['\\', ';']
            };
            assert(desc3(s) == h + r);
            lemma_not_prefix2(h + r, pat);
            assert(r.len() > 0 ==> r[0] != ',') by {
                if r.len() > 0 {
                    lemma_desc3_first(t);
                }
            }
            lemma_not_prefix2(seq![h[1]] + r, pat);
            lemma_step_over2(h, r, pat, rep);
            assert(desc4(s) == h + desc4(t));
        } else if c == ',' {
            let h = seq!['\\', ','];
            assert(desc3(s) == h + r);
            lemma_match_head2(h, r, pat, rep);
            assert(desc4(s) == seq![','] + desc4(t));
        } else {
            assert(desc3(s) == seq![c] + r);
            lemma_not_prefix2(seq![c] + r, pat);
            lemma_step_over1(c, r, pat, rep);
            assert(desc4(s) == seq![c] + desc4(t));
        }
    }
}

/// Undoing the semicolon escapes.
proof fn lemma_unesc_semi(s: Seq<char>)
    ensures
        spec_replace(desc4(s), seq!['\\', ';'], seq![';']) == desc5(s),
    decreases s.len(),
{
    let pat = seq!['\\', ';'];
    let rep = seq![';'];
    if s.len() == 0 {
    } else {
        let c = s[0];
        let t = s.drop_first();
        lemma_unesc_semi(t);
        let r = desc4(t);
        if c == '\\' {
            let h = seq!['\\', '\\'];
            assert(desc4(s) == h + r);
            lemma_not_prefix2(h + r, pat);
            assert(r.len() > 0 ==> r[0] != ';') by {
                if r.len() > 0 {
                    lemma_desc4_first(t);
                }
            }
            lemma_not_prefix2(seq![h[1]] + r, pat);
            lemma_step_over2(h, r, pat, rep);
            assert(desc5(s) == h + desc5(t));
        } else if c == ';' {
            let h = seq!['\\', ';'];
            assert(desc4(s) == h + r);
            lemma_match_head2(h, r, pat, rep);
            assert(desc5(s) == seq![';'] + desc5(t));
        } else {
            assert(desc4(s) == seq![c] + r);
            lemma_not_prefix2(seq![c] + r, pat);
            lemma_step_over1(c, r, pat, rep);
            assert(desc5(s) == seq![c] + desc5(t));
        }
    }
}

/// Undoing the doubled backslashes recovers the original text.
proof fn lemma_unesc_bs(s: Seq<char>)
    ensures
        spec_replace(desc5(s), seq!['\\', '\\'], seq!['\\']) == s,
    decreases s.len(),
{
    let pat = seq!['\\', '\\'];
    let rep = seq!['\\'];
    if s.len() == 0 {
    } else {
        let c = s[0];
        let t = s.drop_first();
        lemma_unesc_bs(t);
        let r = desc5(t);
        if c == '\\' {
            let h = seq!['\\', '\\'];
            assert(desc5(s) == h + r);
            lemma_match_head2(h, r, pat, rep);
            assert(seq!['\\'] + t =~= s);
        } else {
            assert(desc5(s) == seq![c] + r);
            lemma_not_prefix2(seq![c] + r, pat);
            lemma_step_over1(c, r, pat, rep);
            assert(seq![c] + t =~= s);
        }
    }
}

/// The logical characters of a text do not depend on what stands before it.
proof fn lemma_lh_shift(a: Seq<char>, b: Seq<char>, i: int)
    requires
        0 <= i,
    ensures
        match lh(b, i) {
            None => lh(a + b, a.len() + i) is None,
            Some((c, j)) => lh(a + b, a.len() + i) == Some((c, a.len() + j)),
        },
    decreases b.len() - i,
{
    let s = a + b;
    let n = a.len() as int;
    if i >= b.len() {
    } else {
        assert(s[n + i] == b[i]);
        if b[i] == '\r' {
            lemma_lh_shift(a, b, i + 1);
        } else if b[i] == '\n' {
            lemma_lh_shift(a, b, i + 1);
            lemma_lh(b, i + 1);
            match lh(b, i + 1) {
                Some((c, j)) => {
                    if c == ' ' || c == '\t' {
                        assert(clip_at(j, i + 2, b.len() as int) == j);
                        assert(clip_at(n + j, n + i + 2, s.len() as int) == n + j);
                        lemma_lh_shift(a, b, j);
                    }
                }
                None => {}
            }
        } else {
        }
    }
}

/// Neither does the run a take-while collects.
proof fn lemma_twhile_shift(a: Seq<char>, b: Seq<char>, i: int, p: spec_fn(char) -> bool)
    requires
        0 <= i,
    ensures
        twhile_txt(a + b, a.len() + i, p) == twhile_txt(b, i, p),
        twhile_end(a + b, a.len() + i, p) == a.len() + twhile_end(b, i, p),
    decreases b.len() - i,
{
    let s = a + b;
    let n = a.len() as int;
    lemma_lh_shift(a, b, i);
    lemma_lh(b, i);
    match lh(b, i) {
        None => {}
        Some((c, j)) => {
            if p(c) {
                assert(clip_at(j, i + 1, b.len() as int) == j);
                assert(clip_at(n + j, n + i + 1, s.len() as int) == n + j);
                lemma_twhile_shift(a, b, j, p);
            }
        }
    }
}

/// Walking over characters that are not line breaks and satisfy `p`, the
/// take-while collects them one by one.
proof fn lemma_twhile_plain_run(s: Seq<char>, i: int, k: int, p: spec_fn(char) -> bool)
    requires
        0 <= i <= k <= s.len(),
        forall|t: int| i <= t < k ==> s[t] != '\r' && s[t] != '\n' && p(s[t]),
    ensures
        twhile_txt(s, i, p) == s.subrange(i, k) + twhile_txt(s, k, p),
        twhile_end(s, i, p) == twhile_end(s, k, p),
    decreases k - i,
{
    if i == k {
        assert(s.subrange(i, k).len() == 0);
        assert(s.subrange(i, k) + twhile_txt(s, k, p) =~= twhile_txt(s, k, p));
    } else {
        assert(lh(s, i) == Some((s[i], i + 1)));
        assert(clip_at(i + 1, i + 1, s.len() as int) == i + 1);
        lemma_twhile_plain_run(s, i + 1, k, p);
        assert(seq![s[i]] + (s.subrange(i + 1, k) + twhile_txt(s, k, p)) =~= s.subrange(i, k)
            + twhile_txt(s, k, p));
    }
}

/// A fold marker (CRLF and one space) is invisible to the logical stream.
proof fn lemma_lh_fold_marker(s: Seq<char>, i: int)
    requires
        0 <= i,
        i + 2 < s.len(),
        s[i] == '\r',
        s[i + 1] == '\n',
        s[i + 2] == ' ',
    ensures
        lh(s, i) == lh(s, i + 3),
{
    assert(lh(s, i + 2) == Some((' ', i + 3)));
    assert(clip_at(i + 3, i + 3, s.len() as int) == i + 3);
    assert(lh(s, i + 1) == lh(s, i + 3));
}

/// The byte length of a concatenation is the sum of the parts'.
proof fn lemma_octet_len_concat(a: Seq<char>, b: Seq<char>)
    ensures
        octet_len(a + b) == octet_len(a) + octet_len(b),
    decreases a.len(),
{
    if a.len() == 0 {
        assert(a + b =~= b);
    } else {
        assert((a + b)[0] == a[0]);
        assert((a + b).drop_first() =~= a.drop_first() + b);
        lemma_octet_len_concat(a.drop_first(), b);
    }
}

/// Law (continuation-line transparency): reading a line's worth of logical
/// characters out of a folded value followed by its line terminator gives
/// the value back exactly — nothing is inserted at the splice points — and
/// the cursor stops right at the terminator. `tail` is whatever follows the
/// terminator; it must not begin with whitespace or a line break (the next
/// content line never does).
pub proof fn lemma_fold_line_reads_back(v: Seq<char>, tail: Seq<char>)
    requires
        forall|i: int| 0 <= i < v.len() ==> v[i] != '\r' && v[i] != '\n',
        tail.len() == 0 || (tail[0] != ' ' && tail[0] != '\t' && tail[0] != '\r' && tail[0]
            != '\n'),
    ensures
        ({
            let s = spec_fold_line(v) + seq!['\r', '\n'] + tail;
            let p = |c: char| c != '\r' && c != '\n';
            &&& twhile_txt(s, 0, p) == v
            &&& twhile_end(s, 0, p) == spec_fold_line(v).len()
            &&& lh(s, spec_fold_line(v).len() as int) == Some(
                ('\n', (spec_fold_line(v).len() + 2) as int),
            )
        }),
    decreases v.len(),
{
    let p = |c: char| c != '\r' && c != '\n';
    let s = spec_fold_line(v) + seq!['\r', '\n'] + tail;
    if octet_len(v) <= 75 {
        assert(spec_fold_line(v) == v);
        let m = v.len() as int;
        assert forall|t: int| 0 <= t < m implies s[t] != '\r' && s[t] != '\n' && p(s[t]) by {
            assert(s[t] == v[t]);
        }
        assert(s[m] == '\r');
        assert(s[m + 1] == '\n');
        if m + 2 < s.len() {
            assert(s[m + 2] == tail[0]);
            assert(lh(s, m + 2) == Some((tail[0], m + 3)));
            assert(tail[0] != ' ' && tail[0] != '\t');
        } else {
            assert(lh(s, m + 2) is None);
        }
        assert(lh(s, m + 1) == Some(('\n', m + 2)));
        assert(lh(s, m) == lh(s, m + 1));
        assert(lh(s, m) == Some(('\n', m + 2)));
        lemma_twhile_plain_run(s, 0, m, p);
        assert(s.subrange(0, m) =~= v);
        assert(twhile_txt(s, m, p) =~= Seq::<char>::empty());
        assert(v + Seq::<char>::empty() =~= v);
        assert(twhile_end(s, m, p) == m);
    } else {
        lemma_take_bytes(v, 75);
        if v.len() == 0 {
            assert(octet_len(v) == 0);
        }
        let k = take_bytes(v, 75);
        let chunk = v.take(k);
        let rest = v.skip(k);
        assert(chunk + rest =~= v);
        assert(k < v.len()) by {
            if k == v.len() {
                assert(chunk =~= v);
                lemma_octet_len_concat(chunk, rest);
                lemma_octet_len_nonneg(rest);
            }
        }
        assert(rest.len() > 0);
        assert forall|i: int| 0 <= i < rest.len() implies rest[i] != '\r' && rest[i] != '\n' by {
            assert(rest[i] == v[i + k]);
        }
        lemma_fold_line_reads_back(rest, tail);
        let a = chunk + seq!['\r', '\n', ' '];
        let b = spec_fold_line(rest) + seq!['\r', '\n'] + tail;
        assert(spec_fold_line(v) == chunk + seq!['\r', '\n', ' '] + spec_fold_line(rest));
        assert(s =~= a + b);
        let cl = chunk.len() as int;
        // the chunk itself
        assert forall|t: int| 0 <= t < cl implies s[t] != '\r' && s[t] != '\n' && p(s[t]) by {
            assert(s[t] == chunk[t]);
            assert(chunk[t] == v[t]);
        }
        lemma_twhile_plain_run(s, 0, cl, p);
        assert(s.subrange(0, cl) =~= chunk);
        // the fold marker vanishes
        assert(s[cl] == '\r');
        assert(s[cl + 1] == '\n');
        assert(s[cl + 2] == ' ');
        assert(b.len() > 0);
        assert(cl + 2 < s.len());
        lemma_lh_fold_marker(s, cl);
        // behind the marker sits the rest, folded
        lemma_twhile_shift(a, b, 0, p);
        lemma_lh_shift(a, b, spec_fold_line(rest).len() as int);
        assert(twhile_txt(s, cl + 3, p) == twhile_txt(b, 0, p));
        assert(twhile_end(s, cl + 3, p) == a.len() + twhile_end(b, 0, p));
        // one unfolding step of the take-while at the marker, on both sides
        assert(b[0] == rest[0]) by {
            if octet_len(rest) <= 75 {
                assert(spec_fold_line(rest) == rest);
            } else {
                lemma_take_bytes(rest, 75);
                assert(spec_fold_line(rest)[0] == rest.take(take_bytes(rest, 75))[0]);
            }
        }
        assert(lh(s, cl + 3) == Some((rest[0], cl + 4))) by {
            assert(s[cl + 3] == b[0]);
        }
        assert(lh(s, cl) == Some((rest[0], cl + 4)));
        assert(p(rest[0]));
        assert(clip_at(cl + 4, cl + 1, s.len() as int) == cl + 4);
        assert(clip_at(cl + 4, cl + 4, s.len() as int) == cl + 4);
        assert(twhile_txt(s, cl, p) == seq![rest[0]] + twhile_txt(s, cl + 4, p));
        assert(twhile_txt(s, cl + 3, p) == seq![rest[0]] + twhile_txt(s, cl + 4, p));
        assert(twhile_end(s, cl, p) == twhile_end(s, cl + 4, p));
        assert(twhile_end(s, cl + 3, p) == twhile_end(s, cl + 4, p));
        // assemble
        assert(twhile_txt(s, 0, p) == chunk + twhile_txt(s, cl, p));
        assert(chunk + (twhile_txt(b, 0, p)) =~= chunk + rest) by {
            assert(twhile_txt(b, 0, p) == rest);
        }
        assert(twhile_txt(s, 0, p) =~= v);
        assert(twhile_end(s, 0, p) == spec_fold_line(v).len()) by {
            assert(twhile_end(b, 0, p) == spec_fold_line(rest).len());
            assert(a.len() == cl + 3);
            assert(spec_fold_line(v).len() == cl + 3 + spec_fold_line(rest).len());
        }
        assert(lh(s, spec_fold_line(v).len() as int) == Some(
            ('\n', (spec_fold_line(v).len() + 2) as int),
        )) by {
            assert(lh(b, spec_fold_line(rest).len() as int) == Some(
                ('\n', (spec_fold_line(rest).len() + 2) as int),
            ));
        }
    }
}

/// Law (continuation-line folding, at the grammar): the property-value
/// production applied to a folded value with its line terminator yields the
/// value itself.
pub proof fn lemma_value_reads_folded(v: Seq<char>, tail: Seq<char>)
    requires
        forall|i: int| 0 <= i < v.len() ==> v[i] != '\r' && v[i] != '\n',
        tail.len() == 0 || (tail[0] != ' ' && tail[0] != '\t' && tail[0] != '\r' && tail[0]
            != '\n'),
    ensures
        ({
            let s = spec_fold_line(v) + seq!['\r', '\n'] + tail;
            sp_value(s, 0) matches Some((w, e)) && w == v
        }),
{
    let s = spec_fold_line(v) + seq!['\r', '\n'] + tail;
    let p = |c: char| c != '\r' && c != '\n';
    lemma_fold_line_reads_back(v, tail);
    assert(twhile_end(s, 0, p) < s.len());
    assert(at_eol(s, twhile_end(s, 0, p)));
}

/// Law (escape/unescape round trip): unescaping an escaped text reproduces
/// it, for every text free of the three pairs the scheme cannot carry: a
/// backslash before an `N`, a backslash before an `n`, and a CRLF.
pub proof fn lemma_escape_unescape(s: Seq<char>)
    requires
        !contains_seq(s, seq!['\\', 'N']),
        !contains_seq(s, seq!['\\', 'n']),
        !contains_seq(s, seq!['\r', '\n']),
    ensures
        spec_unescape(spec_escape(s)) == s,
{
    lemma_escape_is_esc1(s);
    lemma_esc1_no_bs_big_n(s);
    lemma_replace_id(esc1(s), seq!['\\', 'N'], seq!['\\', 'n']);
    lemma_esc1_no_crlf(s);
    lemma_replace_id(esc1(s), seq!['\r', '\n'], seq!['\n']);
    lemma_unesc_nl(s);
    lemma_unesc_comma(s);
    lemma_unesc_semi(s);
    lemma_unesc_bs(s);
}

} // verus!
