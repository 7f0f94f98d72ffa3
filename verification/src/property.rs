//! A single content line (`NAME;PARAM=VALUE:value`) and the backslash
//! escaping of property values.
//!
//! Escaping and unescaping are each a fixed chain of textual replacements,
//! applied in a fixed order; the order matters, and the chain is mirrored
//! verbatim by [`spec_escape`] and [`spec_unescape`].

use vstd::prelude::*;
use vstd::std_specs::vec::vec_index;

use crate::chars::chars_to_vec;
use crate::chars::string_from_chars;
use crate::strmap::StrMap;

verus! {

broadcast use vstd::seq::group_seq_axioms;

/// The parameter store of a property: parameter name to parameter value,
/// unique keys, last write wins.
pub type Params = StrMap<String>;

/// The mathematical value of a [`Property`].
pub ghost struct PropModel {
    /// The optional group prefix (`foo` in `foo.EMAIL:...`).
    pub group: Option<Seq<char>>,
    /// The property name (`EMAIL`).
    pub name: Seq<char>,
    /// Parameter names and values, sorted by name.
    pub params: Seq<(Seq<char>, Seq<char>)>,
    /// The raw (still escaped) value text.
    pub value: Seq<char>,
}

/// One `NAME[;PARAM=VALUE]*:value` content line.
#[derive(Debug, PartialEq, Eq)]
pub struct Property {
    /// Key in the component.
    pub name: String,
    /// Parameters.
    pub params: Params,
    /// Value as unparsed (escaped) string.
    pub raw_value: String,
    /// Property group: a contentline `foo.FN:Markus` has group `"foo"`.
    pub prop_group: Option<String>,
}

impl View for Property {
    type V = PropModel;

    open spec fn view(&self) -> PropModel {
        PropModel {
            group: self.prop_group.deep_view(),
            name: self.name@,
            params: self.params@,
            value: self.raw_value@,
        }
    }
}

impl DeepView for Property {
    type V = PropModel;

    open spec fn deep_view(&self) -> PropModel {
        self.view()
    }
}

impl Property {
    /// Creates a property, escaping the given unescaped value.
    pub fn new(name: &str, value: &str) -> (p: Property)
        ensures
            p@.name == name@,
            p@.params.len() == 0,
            p@.value == spec_escape(value@),
            p@.group is None,
    {
        Property {
            name: name.to_owned(),
            params: StrMap::new(),
            raw_value: escape_chars(value),
            prop_group: None,
        }
    }

    /// The value as an unescaped string.
    pub fn value_as_string(&self) -> (r: String)
        ensures
            r@ == spec_unescape(self@.value),
    {
        unescape_chars(self.raw_value.as_str())
    }

    /// A copy with an equal view.
    pub fn duplicate(&self) -> (p: Property)
        ensures
            p@ == self@,
    {
        Property {
            name: self.name.clone(),
            params: self.params.duplicate(),
            raw_value: self.raw_value.clone(),
            prop_group: match &self.prop_group {
                Some(g) => Some(g.clone()),
                None => None,
            },
        }
    }
}

/// `s` with every occurrence of `pat` replaced by `rep`, scanning left to
/// right over non-overlapping occurrences.
pub open spec fn spec_replace(s: Seq<char>, pat: Seq<char>, rep: Seq<char>) -> Seq<char>
    decreases s.len(),
        when pat.len() > 0
{
    if s.len() == 0 {
        s
    } else if pat.is_prefix_of(s) {
        rep + spec_replace(s.skip(pat.len() as int), pat, rep)
    } else {
        seq![s[0]] + spec_replace(s.drop_first(), pat, rep)
    }
}

/// The escaping chain, in its fixed order: `\N` becomes a newline, then
/// backslashes are doubled, `;` and `,` get a backslash, and finally CRLF
/// and LF become the two characters `\n`.
pub open spec fn spec_escape(s: Seq<char>) -> Seq<char> {
    spec_replace(
        spec_replace(
            spec_replace(
                spec_replace(
                    spec_replace(spec_replace(s, seq!['\\', 'N'], seq!['\n']), seq!['\\'], seq!['\\', '\\']),
                    seq![';'],
                    seq!['\\', ';'],
                ),
                seq![','],
                seq!['\\', ','],
            ),
            seq!['\r', '\n'],
            seq!['\\', 'n'],
        ),
        seq!['\n'],
        seq!['\\', 'n'],
    )
}

/// The unescaping chain, in its fixed order: `\N` becomes the two characters
/// `\n`, CRLF and `\n` become a newline, then `\,`, `\;` and `\\` drop their
/// backslash.
pub open spec fn spec_unescape(s: Seq<char>) -> Seq<char> {
    spec_replace(
        spec_replace(
            spec_replace(
                spec_replace(
                    spec_replace(
                        spec_replace(s, seq!['\\', 'N'], seq!['\\', 'n']),
                        seq!['\r', '\n'],
                        seq!['\n'],
                    ),
                    seq!['\\', 'n'],
                    seq!['\n'],
                ),
                seq!['\\', ','],
                seq![','],
            ),
            seq!['\\', ';'],
            seq![';'],
        ),
        seq!['\\', '\\'],
        seq!['\\'],
    )
}

/// Whether `pat` occurs at position `i` of `v`.
fn matches_at(v: &Vec<char>, i: usize, pat: &Vec<char>) -> (r: bool)
    requires
        i <= v@.len(),
    ensures
        r == pat@.is_prefix_of(v@.skip(i as int)),
{
    let n = pat.len();
    let lv = v.len();
    if lv - i < n {
        return false;
    }
    let mut j: usize = 0;
    while j < n
        invariant
            n == pat@.len(),
            lv == v@.len(),
            i + n <= lv,
            j <= n,
            forall|t: int| 0 <= t < j ==> v@[i + t] == pat@[t],
        decreases n - j,
    {
        if *vec_index(v, i + j) != *vec_index(pat, j) {
            proof {
                assert(v@.skip(i as int)[j as int] == v@[i + j]);
            }
            return false;
        }
        j = j + 1;
    }
    proof {
        assert(pat@ =~= v@.skip(i as int).subrange(0, n as int));
    }
    true
}

/// `v` with every occurrence of `pat` replaced by `rep`.
fn replace_chars(v: &Vec<char>, pat: &Vec<char>, rep: &Vec<char>) -> (r: Vec<char>)
    requires
        pat@.len() > 0,
    ensures
        r@ == spec_replace(v@, pat@, rep@),
{
    let n = v.len();
    let mut out: Vec<char> = Vec::new();
    let mut i: usize = 0;
    proof {
        assert(v@.skip(0) =~= v@);
    }
    while i < n
        invariant
            n == v@.len(),
            i <= n,
            pat@.len() > 0,
            spec_replace(v@, pat@, rep@) == out@ + spec_replace(v@.skip(i as int), pat@, rep@),
        decreases n - i,
    {
        let ghost pre = out@;
        let ghost suffix = v@.skip(i as int);
        if matches_at(v, i, pat) {
            let m = pat.len();
            let mut j: usize = 0;
            while j < rep.len()
                invariant
                    j <= rep@.len(),
                    out@ == pre + rep@.take(j as int),
                decreases rep@.len() - j,
            {
                out.push(*vec_index(rep, j));
                j = j + 1;
                proof {
                    assert(out@ =~= pre + rep@.take(j as int));
                }
            }
            proof {
                assert(rep@.take(rep@.len() as int) =~= rep@);
                assert(suffix.skip(pat@.len() as int) =~= v@.skip(i + m));
                assert(out@ =~= pre + rep@);
            }
            i = i + m;
        } else {
            out.push(*vec_index(v, i));
            proof {
                assert(suffix[0] == v@[i as int]);
                assert(suffix.drop_first() =~= v@.skip(i + 1));
                assert(out@ =~= pre + seq![suffix[0]]);
                assert(pre + seq![suffix[0]] + spec_replace(v@.skip(i + 1), pat@, rep@) =~= pre
                    + (seq![suffix[0]] + spec_replace(v@.skip(i + 1), pat@, rep@)));
            }
            i = i + 1;
        }
    }
    proof {
        assert(v@.skip(n as int) =~= Seq::<char>::empty());
        assert(out@ + Seq::<char>::empty() =~= out@);
    }
    out
}

/// A one-character pattern vector.
fn single(a: char) -> (v: Vec<char>)
    ensures
        v@ == seq![a],
{
    let mut v: Vec<char> = Vec::new();
    v.push(a);
    proof {
        assert(v@ =~= seq![a]);
    }
    v
}

/// A two-character pattern vector.
fn pair(a: char, b: char) -> (v: Vec<char>)
    ensures
        v@ == seq![a, b],
{
    let mut v: Vec<char> = Vec::new();
    v.push(a);
    v.push(b);
    proof {
        assert(v@ =~= seq![a, b]);
    }
    v
}

/// Escapes text for use as a property value.
pub fn escape_chars(s: &str) -> (r: String)
    ensures
        r@ == spec_escape(s@),
{
    let v = chars_to_vec(s);
    let v1 = replace_chars(&v, &pair('\\', 'N'), &single('\n'));
    let v2 = replace_chars(&v1, &single('\\'), &pair('\\', '\\'));
    let v3 = replace_chars(&v2, &single(';'), &pair('\\', ';'));
    let v4 = replace_chars(&v3, &single(','), &pair('\\', ','));
    let v5 = replace_chars(&v4, &pair('\r', '\n'), &pair('\\', 'n'));
    let v6 = replace_chars(&v5, &single('\n'), &pair('\\', 'n'));
    string_from_chars(&v6)
}

/// Unescapes text taken from a property value.
pub fn unescape_chars(s: &str) -> (r: String)
    ensures
        r@ == spec_unescape(s@),
{
    let v = chars_to_vec(s);
    let v1 = replace_chars(&v, &pair('\\', 'N'), &pair('\\', 'n'));
    let v2 = replace_chars(&v1, &pair('\r', '\n'), &single('\n'));
    let v3 = replace_chars(&v2, &pair('\\', 'n'), &single('\n'));
    let v4 = replace_chars(&v3, &pair('\\', ','), &single(','));
    let v5 = replace_chars(&v4, &pair('\\', ';'), &single(';'));
    let v6 = replace_chars(&v5, &pair('\\', '\\'), &single('\\'));
    string_from_chars(&v6)
}

} // verus!
