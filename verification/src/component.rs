//! A `BEGIN:...`/`END:...` component: a name, a store of properties keyed by
//! property name, and an ordered list of subcomponents.

use vstd::prelude::*;
use vstd::std_specs::vec::vec_index;
use vstd::string::StringExecFns;

use crate::chars::chars_to_vec;
use crate::chars::char_width;
use crate::chars::octet_len;
use crate::chars::push_char;
use crate::chars::string_from_chars;
use crate::chars::utf8_width;
use crate::error::ParseError;
use crate::error::VObjectError;
use crate::grammar::sp_comp_err;
use crate::grammar::sp_component;
use crate::parser::Parser;
use crate::property::PropModel;
use crate::property::Property;
use crate::strmap::entries_sorted;
use crate::strmap::key_idx;
use crate::strmap::lemma_remove_sorted;
use crate::strmap::lemma_sorted_key_unique;
use crate::strmap::map_insert;
use crate::strmap::map_val;
use crate::strmap::StrMap;

verus! {

broadcast use {vstd::seq::group_seq_axioms, vstd::std_specs::vec::group_vec_axioms};

/// The mathematical value of a [`Component`].
pub ghost struct CompModel {
    /// The component's name: the value of the matching BEGIN/END pair.
    pub name: Seq<char>,
    /// Property name to the properties under it, in encounter order, with
    /// the keys sorted.
    pub props: Seq<(Seq<char>, Seq<PropModel>)>,
    /// The subcomponents, in order.
    pub subs: Seq<CompModel>,
}

/// The property store after appending one property under its name: the
/// property joins the end of its name's list, other names are untouched.
pub open spec fn props_push(m: Seq<(Seq<char>, Seq<PropModel>)>, p: PropModel) -> Seq<
    (Seq<char>, Seq<PropModel>),
> {
    match map_val(m, p.name) {
        Some(vs) => m.update(key_idx(m, p.name), (p.name, vs.push(p))),
        None => map_insert(m, p.name, seq![p]),
    }
}

/// The property store after removing the last property under `name`: an
/// emptied name keeps its (empty) entry, a missing name changes nothing.
pub open spec fn props_pop(m: Seq<(Seq<char>, Seq<PropModel>)>, name: Seq<char>) -> Seq<
    (Seq<char>, Seq<PropModel>),
> {
    match map_val(m, name) {
        Some(vs) => {
            if vs.len() > 0 {
                m.update(key_idx(m, name), (name, vs.drop_last()))
            } else {
                m
            }
        },
        None => m,
    }
}

/// The store resulting from appending the given properties, in order, to an
/// empty store.
pub open spec fn props_of_list(l: Seq<PropModel>) -> Seq<(Seq<char>, Seq<PropModel>)>
    decreases l.len(),
{
    if l.len() == 0 {
        Seq::empty()
    } else {
        props_push(props_of_list(l.drop_last()), l.last())
    }
}

/// Appending to a list of properties is one more push.
pub proof fn lemma_props_of_list_push(l: Seq<PropModel>, p: PropModel)
    ensures
        props_of_list(l.push(p)) == props_push(props_of_list(l), p),
{
    assert(l.push(p).drop_last() =~= l);
    assert(l.push(p).last() == p);
}

/// Pushing keeps the store's keys sorted.
pub proof fn lemma_props_push_sorted(m: Seq<(Seq<char>, Seq<PropModel>)>, p: PropModel)
    requires
        entries_sorted(m),
    ensures
        entries_sorted(props_push(m, p)),
{
    match map_val(m, p.name) {
        Some(vs) => {
            let i = key_idx(m, p.name);
            let r = m.update(i, (p.name, vs.push(p)));
            assert forall|a: int, b: int|
                0 <= a < b < r.len() implies crate::chars::lex_lt(r[a].0, r[b].0) by {
                assert(r[a].0 == m[a].0);
                assert(r[b].0 == m[b].0);
            }
        }
        None => {
            crate::strmap::lemma_map_insert_sorted(m, p.name, seq![p]);
        }
    }
}

/// Every property store in the tree has sorted keys; what the parser
/// produces satisfies this, and the accessors rely on it.
pub open spec fn model_wf(m: CompModel) -> bool
    decreases m,
    via model_wf_decreases
{
    entries_sorted(m.props) && (forall|i: int|
        0 <= i < m.subs.len() ==> model_wf(#[trigger] m.subs[i]))
}

#[via_fn]
proof fn model_wf_decreases(m: CompModel) {
    assert forall|i: int| 0 <= i < m.subs.len() implies (decreases_to!(m => m.subs[i])) by {
        assert(decreases_to!(m => m.subs));
        assert(decreases_to!(m.subs => m.subs[i]));
    }
}

/// A component: its name, its properties and its subcomponents.
#[derive(Debug, PartialEq, Eq)]
pub struct Component {
    /// The name of the component, such as `VCARD` or `VEVENT`.
    pub name: String,
    /// The component's properties.
    pub props: StrMap<Vec<Property>>,
    /// The component's child components.
    pub subcomponents: Vec<Component>,
}

impl Component {
    /// The component's mathematical value.
    pub open spec fn model(&self) -> CompModel
        decreases self,
        via Self::model_decreases
    {
        CompModel {
            name: self.name@,
            props: self.props@,
            subs: Seq::new(
                self.subcomponents@.len(),
                |i: int|
                    if 0 <= i < self.subcomponents@.len() {
                        self.subcomponents@[i].model()
                    } else {
                        CompModel { name: Seq::empty(), props: Seq::empty(), subs: Seq::empty() }
                    },
            ),
        }
    }

    #[via_fn]
    proof fn model_decreases(&self) {
        assert forall|i: int| 0 <= i < self.subcomponents@.len() implies (decreases_to!(self
            => self.subcomponents@[i])) by {
            assert(decreases_to!(self => self.subcomponents));
            assert(decreases_to!(self.subcomponents => self.subcomponents@));
            assert(decreases_to!(self.subcomponents@ => self.subcomponents@[i]));
        }
    }
}

impl View for Component {
    type V = CompModel;

    open spec fn view(&self) -> CompModel {
        self.model()
    }
}

impl DeepView for Component {
    type V = CompModel;

    open spec fn deep_view(&self) -> CompModel {
        self.view()
    }
}

impl Component {
    /// The property store's keys are sorted; constructors establish it and
    /// every method preserves it.
    pub open spec fn store_wf(&self) -> bool {
        entries_sorted(self.props@)
    }

    /// A fresh component with the given name and nothing in it.
    pub fn new(name: &str) -> (c: Component)
        ensures
            c@.name == name@,
            c@.props.len() == 0,
            c@.subs.len() == 0,
            c.store_wf(),
    {
        let c = Component { name: name.to_owned(), props: StrMap::new(), subcomponents: Vec::new() };
        proof {
            assert(c@.subs =~= Seq::<CompModel>::empty());
        }
        c
    }

    /// Appends the given property, preserving other same-named properties.
    pub fn push(&mut self, prop: Property)
        requires
            old(self).store_wf(),
        ensures
            final(self)@.name == old(self)@.name,
            final(self)@.subs == old(self)@.subs,
            final(self)@.props == props_push(old(self)@.props, prop@),
            final(self).store_wf(),
    {
        proof {
            lemma_props_push_sorted(self.props@, prop@);
        }
        let ghost m = self.props@;
        match self.props.find(prop.name.as_str()) {
            Some(i) => {
                proof {
                    lemma_sorted_key_unique(m, key_idx(m, prop@.name), i as int);
                }
                let (k, mut vs) = self.props.take_at(i);
                let ghost oldvs = vs.deep_view();
                vs.push(prop);
                proof {
                    assert(vs.deep_view() =~= oldvs.push(prop@));
                }
                self.props.put_at(i, (k, vs));
                proof {
                    assert(self.props@ =~= props_push(m, prop@));
                }
            }
            None => {
                let key = prop.name.clone();
                let mut vs: Vec<Property> = Vec::new();
                vs.push(prop);
                proof {
                    assert(vs.deep_view() =~= seq![prop@]);
                }
                self.props.insert(key, vs);
            }
        }
    }

    /// Sets the given property, removing other same-named properties.
    pub fn set(&mut self, prop: Property)
        requires
            old(self).store_wf(),
        ensures
            final(self)@.name == old(self)@.name,
            final(self)@.subs == old(self)@.subs,
            final(self)@.props == map_insert(old(self)@.props, prop@.name, seq![prop@]),
            final(self).store_wf(),
    {
        let key = prop.name.clone();
        let mut vs: Vec<Property> = Vec::new();
        vs.push(prop);
        proof {
            assert(vs.deep_view() =~= seq![prop@]);
        }
        self.props.insert(key, vs);
    }

    /// One property under the given name; `None` unless there is exactly one.
    pub fn get_only(&self, name: &str) -> (r: Option<&Property>)
        requires
            self.store_wf(),
        ensures
            match r {
                Some(p) => map_val(self@.props, name@) == Some(seq![p@]),
                None => match map_val(self@.props, name@) {
                    Some(vs) => vs.len() != 1,
                    None => true,
                },
            },
    {
        match self.props.find(name) {
            Some(i) => {
                proof {
                    lemma_sorted_key_unique(self.props@, key_idx(self.props@, name@), i as int);
                }
                let vs = self.props.value_at(i);
                if vs.len() == 1 {
                    let p = vec_index(vs, 0);
                    proof {
                        assert(vs.deep_view() =~= seq![p@]);
                    }
                    Some(p)
                } else {
                    None
                }
            }
            None => None,
        }
    }

    /// All properties under the given name, in encounter order; empty if the
    /// name is absent.
    pub fn get_all(&self, name: &str) -> (r: Vec<Property>)
        requires
            self.store_wf(),
        ensures
            r.deep_view() == match map_val(self@.props, name@) {
                Some(vs) => vs,
                None => Seq::<PropModel>::empty(),
            },
    {
        match self.props.find(name) {
            Some(i) => {
                proof {
                    lemma_sorted_key_unique(self.props@, key_idx(self.props@, name@), i as int);
                }
                let vs = self.props.value_at(i);
                let n = vs.len();
                let mut out: Vec<Property> = Vec::new();
                let mut k: usize = 0;
                while k < n
                    invariant
                        n == vs@.len(),
                        k <= n,
                        out@.len() == k,
                        forall|t: int| 0 <= t < k ==> out@[t]@ == vs@[t]@,
                    decreases n - k,
                {
                    out.push(vec_index(vs, k).duplicate());
                    k = k + 1;
                }
                proof {
                    assert(out.deep_view() =~~= vs.deep_view());
                }
                out
            }
            None => {
                let out: Vec<Property> = Vec::new();
                proof {
                    assert(out.deep_view() =~= Seq::<PropModel>::empty());
                }
                out
            }
        }
    }

    /// Removes and returns the last property under the given name, if any;
    /// an emptied name keeps its (empty) entry.
    pub fn pop(&mut self, name: &str) -> (r: Option<Property>)
        requires
            old(self).store_wf(),
        ensures
            final(self)@.name == old(self)@.name,
            final(self)@.subs == old(self)@.subs,
            final(self).store_wf(),
            match map_val(old(self)@.props, name@) {
                Some(vs) => {
                    if vs.len() > 0 {
                        &&& r matches Some(p) && p@ == vs.last()
                        &&& final(self)@.props == old(self)@.props.update(
                            key_idx(old(self)@.props, name@),
                            (name@, vs.drop_last()),
                        )
                    } else {
                        r is None && final(self)@.props == old(self)@.props
                    }
                },
                None => r is None && final(self)@.props == old(self)@.props,
            },
    {
        let ghost m = self.props@;
        match self.props.find(name) {
            Some(i) => {
                proof {
                    lemma_sorted_key_unique(m, key_idx(m, name@), i as int);
                }
                let (k, mut vs) = self.props.take_at(i);
                let ghost oldvs = vs.deep_view();
                let r = vs.pop();
                proof {
                    if oldvs.len() > 0 {
                        assert(vs.deep_view() =~= oldvs.drop_last());
                    } else {
                        assert(vs.deep_view() =~= oldvs);
                    }
                }
                self.props.put_at(i, (k, vs));
                proof {
                    if oldvs.len() > 0 {
                        assert(self.props@ =~= m.update(i as int, (name@, oldvs.drop_last())));
                    } else {
                        assert(self.props@ =~= m);
                    }
                    assert forall|a: int, b: int|
                        0 <= a < b < self.props@.len() implies crate::chars::lex_lt(
                        self.props@[a].0,
                        self.props@[b].0,
                    ) by {
                        assert(self.props@[a].0 == m[a].0);
                        assert(self.props@[b].0 == m[b].0);
                    }
                }
                r
            }
            None => None,
        }
    }

    /// Removes and returns all properties under the given name.
    pub fn remove(&mut self, name: &str) -> (r: Option<Vec<Property>>)
        requires
            old(self).store_wf(),
        ensures
            final(self)@.name == old(self)@.name,
            final(self)@.subs == old(self)@.subs,
            final(self).store_wf(),
            match map_val(old(self)@.props, name@) {
                Some(vs) => {
                    &&& r matches Some(v) && v.deep_view() == vs
                    &&& final(self)@.props == old(self)@.props.remove(
                        key_idx(old(self)@.props, name@),
                    )
                },
                None => r is None && final(self)@.props == old(self)@.props,
            },
    {
        let ghost m = self.props@;
        match self.props.find(name) {
            Some(i) => {
                proof {
                    lemma_sorted_key_unique(m, key_idx(m, name@), i as int);
                    lemma_remove_sorted(m, i as int);
                }
                let (k, vs) = self.props.take_at(i);
                Some(vs)
            }
            None => None,
        }
    }
}

impl std::str::FromStr for Component {
    type Err = VObjectError;

    /// Same as [`parse_component`].
    fn from_str(s: &str) -> (r: Result<Component, VObjectError>) {
        parse_component(s)
    }
}

/// The description of a failing whole-text parse: the failing component
/// parse's own description, or the trailing text left after a complete one.
pub open spec fn parse_err_desc(s: Seq<char>) -> Seq<char> {
    match sp_component(s, 0) {
        Some((m, e)) => "Trailing data: `"@ + s.skip(e) + "`"@,
        None => sp_comp_err(s, 0).0,
    }
}

/// Parses exactly one component; trailing data is an error.
pub fn parse_component(s: &str) -> (r: Result<Component, VObjectError>)
    ensures
        match sp_component(s@, 0) {
            Some((m, e)) => {
                if e == s@.len() {
                    r matches Ok(c) && c@ == m && model_wf(c@)
                } else {
                    r matches Err(VObjectError::Parser(pe)) && pe@ == parse_err_desc(s@)
                }
            },
            None => r matches Err(VObjectError::Parser(pe)) && pe@ == parse_err_desc(s@),
        },
{
    let mut parser = Parser::new(s);
    let rv = match parser.consume_component() {
        Ok(c) => c,
        Err(e) => {
            return Err(VObjectError::Parser(e));
        }
    };
    if !parser.eof() {
        let n = parser.input.len();
        let start = parser.pos;
        let mut rest = String::new();
        let mut i: usize = start;
        proof {
            assert(rest@ =~= parser.input@.subrange(start as int, start as int));
        }
        while i < n
            invariant
                n == parser.input@.len(),
                start <= i <= n,
                rest@ == parser.input@.subrange(start as int, i as int),
            decreases n - i,
        {
            push_char(&mut rest, *vec_index(&parser.input, i));
            i = i + 1;
            proof {
                assert(rest@ =~= parser.input@.subrange(start as int, i as int));
            }
        }
        proof {
            assert(rest@ =~= s@.skip(start as int));
        }
        let mut m = "Trailing data: `".to_owned();
        m.append(rest.as_str());
        m.append("`");
        Err(VObjectError::Parser(ParseError::new(m)))
    } else {
        Ok(rv)
    }
}

/// The serialized form of a parameter list: `;NAME=VALUE` for each entry,
/// in store order.
pub open spec fn write_params(ps: Seq<(Seq<char>, Seq<char>)>) -> Seq<char>
    decreases ps.len(),
{
    if ps.len() == 0 {
        Seq::empty()
    } else {
        seq![';'] + ps[0].0 + seq!['='] + ps[0].1 + write_params(ps.drop_first())
    }
}

/// The serialized form of one property line, under the name it is stored
/// by: `[group.]NAME[;PARAM=VALUE]*:<folded value>` and CRLF.
pub open spec fn write_prop(name: Seq<char>, p: PropModel) -> Seq<char> {
    (match p.group {
        Some(g) => g + seq!['.'],
        None => Seq::empty(),
    }) + name + write_params(p.params) + seq![':'] + spec_fold_line(p.value) + seq!['\r', '\n']
}

/// The serialized form of all properties under one name, in encounter order.
pub open spec fn write_prop_list(name: Seq<char>, l: Seq<PropModel>) -> Seq<char>
    decreases l.len(),
{
    if l.len() == 0 {
        Seq::empty()
    } else {
        write_prop(name, l[0]) + write_prop_list(name, l.drop_first())
    }
}

/// The serialized form of the property store, names in store (code-point)
/// order.
pub open spec fn write_props(ps: Seq<(Seq<char>, Seq<PropModel>)>) -> Seq<char>
    decreases ps.len(),
{
    if ps.len() == 0 {
        Seq::empty()
    } else {
        write_prop_list(ps[0].0, ps[0].1) + write_props(ps.drop_first())
    }
}

/// The serialized form of a component tree: `BEGIN:`, the properties, the
/// subcomponents in order, `END:`, all lines CRLF-terminated.
pub open spec fn write_comp(m: CompModel) -> Seq<char>
    decreases m,
{
    "BEGIN:"@ + m.name + seq!['\r', '\n'] + write_props(m.props) + write_subs(m.subs) + "END:"@
        + m.name + seq!['\r', '\n']
}

/// The serialized forms of a run of components, concatenated.
pub open spec fn write_subs(cs: Seq<CompModel>) -> Seq<char>
    decreases cs,
{
    if cs.len() == 0 {
        Seq::empty()
    } else {
        write_comp(cs[0]) + write_subs(cs.drop_first())
    }
}

/// How many characters a greedy 75-byte chunk takes from the front of `s`
/// with the given byte budget left.
pub open spec fn take_bytes(s: Seq<char>, budget: int) -> int
    decreases s.len(),
{
    if s.len() == 0 || utf8_width(s[0]) > budget {
        0
    } else {
        1 + take_bytes(s.drop_first(), budget - utf8_width(s[0]))
    }
}

/// The chunk is inside `s`, nonempty when something fits, and never exceeds
/// the byte budget.
pub proof fn lemma_take_bytes(s: Seq<char>, budget: int)
    ensures
        0 <= take_bytes(s, budget) <= s.len(),
        s.len() > 0 && utf8_width(s[0]) <= budget ==> take_bytes(s, budget) >= 1,
        budget >= 0 ==> octet_len(s.take(take_bytes(s, budget))) <= budget,
    decreases s.len(),
{
    if s.len() == 0 || utf8_width(s[0]) > budget {
        assert(s.take(0) =~= Seq::<char>::empty());
        assert(octet_len(s.take(0)) == 0);
    } else {
        let t = s.drop_first();
        lemma_take_bytes(t, budget - utf8_width(s[0]));
        let k = take_bytes(s, budget);
        assert(s.take(k).len() > 0);
        assert(s.take(k)[0] == s[0]);
        assert(s.take(k).drop_first() =~= t.take(k - 1));
        assert(octet_len(s.take(k)) == utf8_width(s.take(k)[0]) + octet_len(s.take(k).drop_first()));
        assert(octet_len(s.take(k)) == utf8_width(s[0]) + octet_len(t.take(k - 1)));
    }
}

/// The byte length of a character sequence is not negative.
pub proof fn lemma_octet_len_nonneg(s: Seq<char>)
    ensures
        octet_len(s) >= 0,
    decreases s.len(),
{
    if s.len() > 0 {
        lemma_octet_len_nonneg(s.drop_first());
    }
}

/// A line folded to chunks of at most 75 bytes: a line that already fits is
/// returned unchanged, a longer one is split greedily, with CRLF + space
/// between the chunks. Splitting is by characters, so no character is ever
/// cut apart.
pub open spec fn spec_fold_line(s: Seq<char>) -> Seq<char>
    decreases s.len(),
    via spec_fold_line_decreases
{
    if octet_len(s) <= 75 {
        s
    } else {
        s.take(take_bytes(s, 75)) + seq!['\r', '\n', ' '] + spec_fold_line(
            s.skip(take_bytes(s, 75)),
        )
    }
}

#[via_fn]
proof fn spec_fold_line_decreases(s: Seq<char>) {
    if octet_len(s) > 75 {
        lemma_take_bytes(s, 75);
        if s.len() == 0 {
            assert(octet_len(s) == 0);
        }
    }
}

/// Whether the bytes of `v` from position `from` on exceed `limit`.
fn octets_exceed(v: &Vec<char>, from: usize, limit: usize) -> (r: bool)
    requires
        from <= v@.len(),
        limit < 1000,
    ensures
        r == (octet_len(v@.skip(from as int)) > limit),
{
    let ghost s0 = v@.skip(from as int);
    let n = v.len();
    let mut sum: usize = 0;
    let mut j: usize = from;
    loop
        invariant
            n == v@.len(),
            s0 == v@.skip(from as int),
            from <= j <= n,
            limit < 1000,
            sum <= limit,
            octet_len(s0) == sum + octet_len(v@.skip(j as int)),
        ensures
            octet_len(s0) == sum,
        decreases n - j,
    {
        if j >= n {
            proof {
                assert(v@.skip(j as int) =~= Seq::<char>::empty());
            }
            break ;
        }
        let w = char_width(*vec_index(v, j));
        proof {
            lemma_octet_len_nonneg(v@.skip(j + 1));
            assert(v@.skip(j as int)[0] == v@[j as int]);
            assert(v@.skip(j as int).drop_first() =~= v@.skip(j + 1));
            assert(octet_len(v@.skip(j as int)) == utf8_width(v@[j as int]) + octet_len(
                v@.skip(j + 1),
            ));
        }
        if sum + w > limit {
            return true;
        }
        sum = sum + w;
        j = j + 1;
    }
    sum > limit
}

/// Folds a content line to chunks of at most 75 bytes, never splitting a
/// character, joining the chunks with CRLF and one space. A line of 75
/// bytes or fewer is returned unchanged.
pub fn fold_line(line: &str) -> (r: String)
    ensures
        r@ == spec_fold_line(line@),
{
    let v = chars_to_vec(line);
    let n = v.len();
    let mut out: Vec<char> = Vec::new();
    let mut i: usize = 0;
    proof {
        assert(v@.skip(0) =~= v@);
        assert(Seq::<char>::empty() + spec_fold_line(v@) =~= spec_fold_line(v@));
    }
    loop
        invariant_except_break
            spec_fold_line(v@) == out@ + spec_fold_line(v@.skip(i as int)),
        invariant
            n == v@.len(),
            i <= n,
        ensures
            out@ == spec_fold_line(v@),
        decreases n - i,
    {
        let ghost base = out@;
        let ghost rest = v@.skip(i as int);
        let start = i;
        if !octets_exceed(&v, i, 75) {
            let mut j: usize = i;
            while j < n
                invariant
                    n == v@.len(),
                    start <= j <= n,
                    rest == v@.skip(start as int),
                    out@ == base + v@.subrange(start as int, j as int),
                decreases n - j,
            {
                out.push(*vec_index(&v, j));
                j = j + 1;
                proof {
                    assert(out@ =~= base + v@.subrange(start as int, j as int));
                }
            }
            proof {
                assert(v@.subrange(start as int, n as int) =~= rest);
                assert(out@ =~= spec_fold_line(v@));
            }
            break ;
        }
        proof {
            lemma_take_bytes(rest, 75);
            lemma_octet_len_nonneg(rest);
            if rest.len() == 0 {
                assert(octet_len(rest) == 0);
            }
        }
        let ghost k = take_bytes(rest, 75);
        let mut budget: usize = 75;
        loop
            invariant
                n == v@.len(),
                rest == v@.skip(start as int),
                start <= i <= n,
                budget <= 75,
                take_bytes(rest, 75) == (i - start) + take_bytes(v@.skip(i as int), budget as int),
            ensures
                i - start == take_bytes(rest, 75),
                start <= i <= n,
            decreases n - i,
        {
            let ghost cur = v@.skip(i as int);
            if i >= n {
                proof {
                    assert(cur =~= Seq::<char>::empty());
                    assert(take_bytes(cur, budget as int) == 0);
                }
                break ;
            }
            let w = char_width(*vec_index(&v, i));
            proof {
                assert(cur[0] == v@[i as int]);
            }
            if w > budget {
                proof {
                    assert(take_bytes(cur, budget as int) == 0);
                }
                break ;
            }
            proof {
                assert(cur.drop_first() =~= v@.skip(i + 1));
                assert(take_bytes(cur, budget as int) == 1 + take_bytes(v@.skip(i + 1), budget - w));
            }
            i = i + 1;
            budget = budget - w;
        }
        let mut j: usize = start;
        while j < i
            invariant
                n == v@.len(),
                start <= j <= i <= n,
                out@ == base + v@.subrange(start as int, j as int),
            decreases i - j,
        {
            out.push(*vec_index(&v, j));
            j = j + 1;
            proof {
                assert(out@ =~= base + v@.subrange(start as int, j as int));
            }
        }
        out.push('\r');
        out.push('\n');
        out.push(' ');
        proof {
            assert(v@.subrange(start as int, i as int) =~= rest.take(k));
            assert(out@ =~= base + rest.take(k) + seq!['\r', '\n', ' ']);
            assert(v@.skip(i as int) =~= rest.skip(k));
            assert(base + (rest.take(k) + seq!['\r', '\n', ' '] + spec_fold_line(rest.skip(k)))
                =~= (base + rest.take(k) + seq!['\r', '\n', ' ']) + spec_fold_line(rest.skip(k)));
        }
    }
    string_from_chars(&out)
}

/// One more parameter extends the serialized parameter list at its end.
proof fn lemma_write_params_snoc(ps: Seq<(Seq<char>, Seq<char>)>, n: int)
    requires
        0 <= n < ps.len(),
    ensures
        write_params(ps.take(n + 1)) == write_params(ps.take(n)) + (seq![';'] + ps[n].0
            + seq!['='] + ps[n].1),
    decreases n,
{
    let piece = seq![';'] + ps[n].0 + seq!['='] + ps[n].1;
    if n == 0 {
        assert(ps.take(1)[0] == ps[0]);
        assert(ps.take(1).drop_first() =~= ps.take(0));
        assert(ps.take(0).len() == 0);
        assert(ps.take(1).len() == 1);
        assert(write_params(ps.take(0)) =~= Seq::<char>::empty());
        assert(write_params(ps.take(1)) == seq![';'] + ps.take(1)[0].0 + seq!['='] + ps.take(1)[0].1
            + write_params(ps.take(1).drop_first()));
        assert(write_params(ps.take(1)) =~= piece);
        assert(write_params(ps.take(0)) =~= Seq::<char>::empty());
        assert(write_params(ps.take(0)) + piece =~= piece);
    } else {
        let t = ps.drop_first();
        lemma_write_params_snoc(t, n - 1);
        assert(ps.take(n + 1)[0] == ps[0]);
        assert(ps.take(n)[0] == ps[0]);
        assert(ps.take(n + 1).drop_first() =~= t.take(n));
        assert(ps.take(n).drop_first() =~= t.take(n - 1));
        assert(t[n - 1] == ps[n]);
        let head = seq![';'] + ps[0].0 + seq!['='] + ps[0].1;
        assert(write_params(ps.take(n + 1)) == head + write_params(t.take(n)));
        assert(write_params(ps.take(n)) == head + write_params(t.take(n - 1)));
        assert(head + (write_params(t.take(n - 1)) + piece) =~= (head + write_params(
            t.take(n - 1),
        )) + piece);
    }
}

/// One more property extends the serialized property run at its end.
proof fn lemma_write_prop_list_snoc(name: Seq<char>, l: Seq<PropModel>, n: int)
    requires
        0 <= n < l.len(),
    ensures
        write_prop_list(name, l.take(n + 1)) == write_prop_list(name, l.take(n)) + write_prop(
            name,
            l[n],
        ),
    decreases n,
{
    let piece = write_prop(name, l[n]);
    if n == 0 {
        assert(l.take(1)[0] == l[0]);
        assert(l.take(1).drop_first() =~= l.take(0));
        assert(l.take(0).len() == 0);
        assert(l.take(1).len() == 1);
        assert(write_prop_list(name, l.take(0)) =~= Seq::<char>::empty());
        assert(write_prop_list(name, l.take(1)) == write_prop(name, l.take(1)[0])
            + write_prop_list(name, l.take(1).drop_first()));
        assert(write_prop_list(name, l.take(1)) =~= piece);
        assert(write_prop_list(name, l.take(0)) =~= Seq::<char>::empty());
        assert(write_prop_list(name, l.take(0)) + piece =~= piece);
    } else {
        let t = l.drop_first();
        lemma_write_prop_list_snoc(name, t, n - 1);
        assert(l.take(n + 1)[0] == l[0]);
        assert(l.take(n)[0] == l[0]);
        assert(l.take(n + 1).drop_first() =~= t.take(n));
        assert(l.take(n).drop_first() =~= t.take(n - 1));
        assert(t[n - 1] == l[n]);
        let head = write_prop(name, l[0]);
        assert(head + (write_prop_list(name, t.take(n - 1)) + piece) =~= (head + write_prop_list(
            name,
            t.take(n - 1),
        )) + piece);
    }
}

/// One more name extends the serialized store at its end.
proof fn lemma_write_props_snoc(ps: Seq<(Seq<char>, Seq<PropModel>)>, n: int)
    requires
        0 <= n < ps.len(),
    ensures
        write_props(ps.take(n + 1)) == write_props(ps.take(n)) + write_prop_list(
            ps[n].0,
            ps[n].1,
        ),
    decreases n,
{
    let piece = write_prop_list(ps[n].0, ps[n].1);
    if n == 0 {
        assert(ps.take(1)[0] == ps[0]);
        assert(ps.take(1).drop_first() =~= ps.take(0));
        assert(ps.take(0).len() == 0);
        assert(ps.take(1).len() == 1);
        assert(write_props(ps.take(0)) =~= Seq::<char>::empty());
        assert(write_props(ps.take(1)) == write_prop_list(ps.take(1)[0].0, ps.take(1)[0].1)
            + write_props(ps.take(1).drop_first()));
        assert(write_props(ps.take(1)) =~= piece);
        assert(write_props(ps.take(0)) =~= Seq::<char>::empty());
        assert(write_props(ps.take(0)) + piece =~= piece);
    } else {
        let t = ps.drop_first();
        lemma_write_props_snoc(t, n - 1);
        assert(ps.take(n + 1)[0] == ps[0]);
        assert(ps.take(n)[0] == ps[0]);
        assert(ps.take(n + 1).drop_first() =~= t.take(n));
        assert(ps.take(n).drop_first() =~= t.take(n - 1));
        assert(t[n - 1] == ps[n]);
        let head = write_prop_list(ps[0].0, ps[0].1);
        assert(head + (write_props(t.take(n - 1)) + piece) =~= (head + write_props(t.take(n - 1)))
            + piece);
    }
}

/// One more subcomponent extends the serialized run at its end.
proof fn lemma_write_subs_snoc(cs: Seq<CompModel>, n: int)
    requires
        0 <= n < cs.len(),
    ensures
        write_subs(cs.take(n + 1)) == write_subs(cs.take(n)) + write_comp(cs[n]),
    decreases n,
{
    let piece = write_comp(cs[n]);
    if n == 0 {
        assert(cs.take(1)[0] == cs[0]);
        assert(cs.take(1).drop_first() =~= cs.take(0));
        assert(cs.take(0).len() == 0);
        assert(cs.take(1).len() == 1);
        assert(write_subs(cs.take(0)) =~= Seq::<char>::empty());
        assert(write_subs(cs.take(1)) == write_comp(cs.take(1)[0]) + write_subs(
            cs.take(1).drop_first()));
        assert(write_subs(cs.take(1)) =~= piece);
        assert(write_subs(cs.take(0)) =~= Seq::<char>::empty());
        assert(write_subs(cs.take(0)) + piece =~= piece);
    } else {
        let t = cs.drop_first();
        lemma_write_subs_snoc(t, n - 1);
        assert(cs.take(n + 1)[0] == cs[0]);
        assert(cs.take(n)[0] == cs[0]);
        assert(cs.take(n + 1).drop_first() =~= t.take(n));
        assert(cs.take(n).drop_first() =~= t.take(n - 1));
        assert(t[n - 1] == cs[n]);
        let head = write_comp(cs[0]);
        assert(head + (write_subs(t.take(n - 1)) + piece) =~= (head + write_subs(t.take(n - 1)))
            + piece);
    }
}

/// Serializes one property line onto the buffer.
fn write_prop_into(buf: &mut String, name: &String, prop: &Property)
    ensures
        final(buf)@ == old(buf)@ + write_prop(name@, prop@),
{
    let ghost base = buf@;
    match &prop.prop_group {
        Some(g) => {
            buf.append(g.as_str());
            push_char(buf, '.');
            proof {
                assert(buf@ =~= base + (g@ + seq!['.']));
            }
        }
        None => {
            proof {
                assert(buf@ =~= base + Seq::<char>::empty());
            }
        }
    }
    let ghost base1 = buf@;
    buf.append(name.as_str());
    let ghost base2 = buf@;
    let np = prop.params.len();
    let mut qi: usize = 0;
    proof {
        assert(prop.params@.take(0).len() == 0);
        assert(buf@ =~= base2 + write_params(prop.params@.take(0)));
    }
    while qi < np
        invariant
            np == prop.params@.len(),
            qi <= np,
            buf@ == base2 + write_params(prop.params@.take(qi as int)),
        decreases np - qi,
    {
        push_char(buf, ';');
        buf.append(prop.params.key_at(qi).as_str());
        push_char(buf, '=');
        buf.append(prop.params.value_at(qi).as_str());
        proof {
            lemma_write_params_snoc(prop.params@, qi as int);
            assert(buf@ =~= base2 + write_params(prop.params@.take(qi + 1)));
        }
        qi = qi + 1;
    }
    proof {
        assert(prop.params@.take(np as int) =~= prop.params@);
    }
    push_char(buf, ':');
    let folded = fold_line(prop.raw_value.as_str());
    buf.append(folded.as_str());
    push_char(buf, '\r');
    push_char(buf, '\n');
    proof {
        assert(buf@ =~= base + write_prop(name@, prop@));
    }
}

/// Serializes a whole component tree onto the buffer, depth first.
fn write_into(buf: &mut String, c: &Component)
    ensures
        final(buf)@ == old(buf)@ + write_comp(c@),
    decreases c,
{
    let ghost base = buf@;
    buf.append("BEGIN:");
    buf.append(c.name.as_str());
    push_char(buf, '\r');
    push_char(buf, '\n');
    let ghost base1 = buf@;
    proof {
        assert(base1 =~= base + ("BEGIN:"@ + c@.name + seq!['\r', '\n']));
    }
    let nk = c.props.len();
    let mut ki: usize = 0;
    proof {
        assert(c@.props.take(0).len() == 0);
        assert(buf@ =~= base1 + write_props(c@.props.take(0)));
    }
    while ki < nk
        invariant
            nk == c@.props.len(),
            ki <= nk,
            buf@ == base1 + write_props(c@.props.take(ki as int)),
        decreases nk - ki,
    {
        let key = c.props.key_at(ki);
        let vs = c.props.value_at(ki);
        let ghost base_k = buf@;
        let npr = vs.len();
        let mut pi: usize = 0;
        proof {
            assert(c@.props[ki as int].1.take(0).len() == 0);
            assert(buf@ =~= base_k + write_prop_list(c@.props[ki as int].0, c@.props[ki as int].1.take(0)));
        }
        while pi < npr
            invariant
                npr == vs@.len(),
                vs.deep_view() == c@.props[ki as int].1,
                key@ == c@.props[ki as int].0,
                pi <= npr,
                buf@ == base_k + write_prop_list(
                    c@.props[ki as int].0,
                    c@.props[ki as int].1.take(pi as int),
                ),
            decreases npr - pi,
        {
            write_prop_into(buf, key, vec_index(vs, pi));
            proof {
                lemma_write_prop_list_snoc(
                    c@.props[ki as int].0,
                    c@.props[ki as int].1,
                    pi as int,
                );
                assert(vs.deep_view()[pi as int] == vs@[pi as int]@);
                assert(buf@ =~= base_k + write_prop_list(
                    c@.props[ki as int].0,
                    c@.props[ki as int].1.take(pi + 1),
                ));
            }
            pi = pi + 1;
        }
        proof {
            assert(c@.props[ki as int].1.take(npr as int) =~= c@.props[ki as int].1);
            lemma_write_props_snoc(c@.props, ki as int);
            assert(buf@ =~= base1 + write_props(c@.props.take(ki + 1)));
        }
        ki = ki + 1;
    }
    proof {
        assert(c@.props.take(nk as int) =~= c@.props);
    }
    let ghost base2 = buf@;
    let ns = c.subcomponents.len();
    let mut si: usize = 0;
    proof {
        assert(c@.subs.take(0).len() == 0);
        assert(buf@ =~= base2 + write_subs(c@.subs.take(0)));
        assert forall|t: int| 0 <= t < ns implies #[trigger] c@.subs[t] == c.subcomponents@[t]@ by {
            assert(c@.subs[t] == c.subcomponents@[t].model());
        }
    }
    while si < ns
        invariant
            ns == c.subcomponents@.len(),
            ns == c@.subs.len(),
            si <= ns,
            forall|t: int| 0 <= t < ns ==> #[trigger] c@.subs[t] == c.subcomponents@[t]@,
            buf@ == base2 + write_subs(c@.subs.take(si as int)),
        decreases ns - si,
    {
        let sub = vec_index(&c.subcomponents, si);
        proof {
            assert(decreases_to!(c => c.subcomponents));
            assert(decreases_to!(c.subcomponents => c.subcomponents@));
            assert(decreases_to!(c.subcomponents@ => c.subcomponents@[si as int]));
        }
        write_into(buf, sub);
        proof {
            lemma_write_subs_snoc(c@.subs, si as int);
            assert(buf@ =~= base2 + write_subs(c@.subs.take(si + 1)));
        }
        si = si + 1;
    }
    proof {
        assert(c@.subs.take(ns as int) =~= c@.subs);
    }
    buf.append("END:");
    buf.append(c.name.as_str());
    push_char(buf, '\r');
    push_char(buf, '\n');
    proof {
        assert(buf@ =~= base + write_comp(c@));
    }
}

/// Serializes a component tree to its wire form: CRLF line endings, folded
/// values, property names in store order.
pub fn write_component(c: &Component) -> (r: String)
    ensures
        r@ == write_comp(c@),
{
    let mut buf = String::new();
    write_into(&mut buf, c);
    proof {
        assert(Seq::<char>::empty() + write_comp(c@) =~= write_comp(c@));
    }
    buf
}

} // verus!
