//! The vCard view over the generic component model: a `VCARD` wrapper,
//! typed and string-level accessors, and chainable builders.

use vstd::prelude::*;
use vstd::std_specs::vec::vec_index;

use crate::chars::chars_to_vec;
use crate::chars::push_char;
use crate::chars::str_eq;
use crate::component::model_wf;
use crate::component::parse_err_desc;
use crate::component::parse_component;
use crate::component::props_pop;
use crate::component::props_push;
use crate::component::CompModel;
use crate::component::Component;
use crate::error::VObjectError;
use crate::grammar::sp_component;
use crate::property::spec_escape;
use crate::property::spec_unescape;
use crate::property::Params;
use crate::property::PropModel;
use crate::property::Property;
use crate::strmap::entries_sorted;
use crate::strmap::map_val;
use crate::strmap::StrMap;
use vstd::string::StringExecFns;

verus! {

broadcast use vstd::seq::group_seq_axioms;

/// The text of an optional field; absent fields read as empty.
pub open spec fn opt_text(o: Option<String>) -> Seq<char> {
    match o {
        Some(x) => x@,
        None => Seq::empty(),
    }
}

/// The `;`-joined text of the seven address fields.
pub open spec fn adr_text(
    pobox: Option<String>,
    ext: Option<String>,
    street: Option<String>,
    locality: Option<String>,
    region: Option<String>,
    code: Option<String>,
    country: Option<String>,
) -> Seq<char> {
    opt_text(pobox) + seq![';'] + opt_text(ext) + seq![';'] + opt_text(street) + seq![';']
        + opt_text(locality) + seq![';'] + opt_text(region) + seq![';'] + opt_text(code)
        + seq![';'] + opt_text(country)
}

/// The index of the first `;` in `s`, or its length if there is none.
pub open spec fn semi_idx(s: Seq<char>) -> int
    decreases s.len(),
{
    if s.len() == 0 {
        0
    } else if s[0] == ';' {
        0
    } else {
        1 + semi_idx(s.drop_first())
    }
}

/// The first `;` is inside the text, everything before it is not a `;`, and
/// it is a `;` itself when it exists.
pub proof fn lemma_semi_idx(s: Seq<char>)
    ensures
        0 <= semi_idx(s) <= s.len(),
        forall|j: int| 0 <= j < semi_idx(s) ==> s[j] != ';',
        semi_idx(s) < s.len() ==> s[semi_idx(s)] == ';',
    decreases s.len(),
{
    if s.len() > 0 && s[0] != ';' {
        lemma_semi_idx(s.drop_first());
        assert forall|j: int| 0 <= j < semi_idx(s) implies s[j] != ';' by {
            if j > 0 {
                assert(s.drop_first()[j - 1] == s[j]);
            }
        }
    }
}

/// Scanning up to the first `;` finds `semi_idx`.
proof fn lemma_semi_scan(s: Seq<char>, k: int)
    requires
        0 <= k <= s.len(),
        forall|j: int| 0 <= j < k ==> s[j] != ';',
        k < s.len() ==> s[k] == ';',
    ensures
        semi_idx(s) == k,
    decreases s.len(),
{
    if s.len() > 0 && k > 0 {
        let t = s.drop_first();
        assert forall|j: int| 0 <= j < k - 1 implies t[j] != ';' by {
            assert(t[j] == s[j + 1]);
        }
        if k - 1 < t.len() {
            assert(t[k - 1] == s[k]);
        }
        lemma_semi_scan(t, k - 1);
    }
}

/// The `;`-separated fields of a text; there is always at least one.
pub open spec fn split_semi(s: Seq<char>) -> Seq<Seq<char>>
    decreases s.len(),
    via split_semi_decreases
{
    if semi_idx(s) >= s.len() {
        seq![s]
    } else {
        seq![s.take(semi_idx(s))] + split_semi(s.skip(semi_idx(s) + 1))
    }
}

#[via_fn]
proof fn split_semi_decreases(s: Seq<char>) {
    lemma_semi_idx(s);
}

/// The field of the given index, if the text has that many.
fn nth_field(s: &str, n: usize) -> (r: Option<String>)
    ensures
        match r {
            Some(t) => (n as int) < split_semi(s@).len() && t@ == split_semi(s@)[n as int],
            None => (n as int) >= split_semi(s@).len(),
        },
{
    let v = chars_to_vec(s);
    let len = v.len();
    let mut cur: usize = 0;
    let mut count: usize = 0;
    proof {
        assert(v@.skip(0) =~= v@);
        assert(split_semi(s@).skip(0) =~= split_semi(s@));
    }
    loop
        invariant
            len == v@.len(),
            v@ == s@,
            cur <= len,
            count <= n,
            count as int <= split_semi(s@).len(),
            split_semi(v@.skip(cur as int)) == split_semi(s@).skip(count as int),
        decreases len - cur + (n - count),
    {
        let ghost rest = v@.skip(cur as int);
        let mut j: usize = cur;
        loop
            invariant
                len == v@.len(),
                cur <= j <= len,
                forall|t: int| cur <= t < j ==> v@[t] != ';',
            ensures
                cur <= j <= len,
                forall|t: int| cur <= t < j ==> v@[t] != ';',
                j < len ==> v@[j as int] == ';',
            decreases len - j,
        {
            if j >= len {
                break ;
            }
            if *vec_index(&v, j) == ';' {
                break ;
            }
            j = j + 1;
        }
        proof {
            assert forall|t: int| 0 <= t < j - cur implies rest[t] != ';' by {
                assert(rest[t] == v@[t + cur]);
            }
            if (j as int) - (cur as int) < rest.len() {
                assert(rest[j - cur] == v@[j as int]);
            }
            lemma_semi_scan(rest, j - cur);
            if semi_idx(rest) >= rest.len() {
            } else {
            }
            assert(split_semi(rest).len() >= 1);
        }
        if count == n {
            let mut piece = String::new();
            let mut t: usize = cur;
            while t < j
                invariant
                    len == v@.len(),
                    cur <= t <= j <= len,
                    piece@ == v@.subrange(cur as int, t as int),
                decreases j - t,
            {
                push_char(&mut piece, *vec_index(&v, t));
                t = t + 1;
                proof {
                    assert(piece@ =~= v@.subrange(cur as int, t as int));
                }
            }
            proof {
                if j < len {
                    assert(rest.take(j - cur) =~= v@.subrange(cur as int, j as int));
                    assert(split_semi(rest)[0] == rest.take(j - cur));
                } else {
                    assert(rest =~= v@.subrange(cur as int, j as int));
                    assert(split_semi(rest)[0] == rest);
                }
                assert(split_semi(s@)[count as int] == split_semi(rest)[0]);
            }
            return Some(piece);
        }
        if j >= len {
            proof {
                assert(split_semi(rest).len() == 1);
                assert(split_semi(s@).len() == count + 1);
            }
            return None;
        }
        proof {
            assert(rest.skip(j - cur + 1) =~= v@.skip(j + 1));
            assert(split_semi(rest) == seq![rest.take(j - cur)] + split_semi(v@.skip(j + 1)));
            assert((seq![rest.take(j - cur)] + split_semi(v@.skip(j + 1))).drop_first()
                =~= split_semi(v@.skip(j + 1)));
            assert(split_semi(s@).skip(count as int).drop_first() =~= split_semi(s@).skip(
                count + 1,
            ));
            assert(split_semi(v@.skip(j + 1)) =~= split_semi(s@).skip(count + 1));
        }
        cur = j + 1;
        count = count + 1;
    }
}

/// The raw value and parameters of an `ADR` property.
#[derive(Debug, PartialEq, Eq)]
pub struct Adr(String, Params);

impl View for Adr {
    type V = (Seq<char>, Seq<(Seq<char>, Seq<char>)>);

    closed spec fn view(&self) -> (Seq<char>, Seq<(Seq<char>, Seq<char>)>) {
        (self.0@, self.1@)
    }
}

impl Adr {
    /// Wraps a raw value and its parameters.
    pub fn new(raw: String, params: Params) -> (r: Adr)
        ensures
            r@ == ((raw@, params@)),
    {
        Adr(raw, params)
    }

    /// The wrapper for the given property's value and parameters.
    fn from_prop(p: &Property) -> (r: Adr)
        ensures
            r@ == ((p@.value, p@.params)),
    {
        Adr(p.raw_value.clone(), p.params.duplicate())
    }

    /// The raw value, borrowed.
    pub fn raw(&self) -> (r: &String)
        ensures
            r@ == self@.0,
    {
        &self.0
    }

    /// The raw value, moved out.
    pub fn into_raw(self) -> (r: String)
        ensures
            r@ == self@.0,
    {
        self.0
    }

    /// The parameters, borrowed.
    pub fn params(&self) -> (r: &Params)
        ensures
            r@ == self@.1,
    {
        &self.1
    }
}

/// The raw value and parameters of a `FN` property.
#[derive(Debug, PartialEq, Eq)]
pub struct FullName(String, Params);

impl View for FullName {
    type V = (Seq<char>, Seq<(Seq<char>, Seq<char>)>);

    closed spec fn view(&self) -> (Seq<char>, Seq<(Seq<char>, Seq<char>)>) {
        (self.0@, self.1@)
    }
}

impl FullName {
    /// Wraps a raw value and its parameters.
    pub fn new(raw: String, params: Params) -> (r: FullName)
        ensures
            r@ == ((raw@, params@)),
    {
        FullName(raw, params)
    }

    /// The wrapper for the given property's value and parameters.
    fn from_prop(p: &Property) -> (r: FullName)
        ensures
            r@ == ((p@.value, p@.params)),
    {
        FullName(p.raw_value.clone(), p.params.duplicate())
    }

    /// The raw value, borrowed.
    pub fn raw(&self) -> (r: &String)
        ensures
            r@ == self@.0,
    {
        &self.0
    }

    /// The raw value, moved out.
    pub fn into_raw(self) -> (r: String)
        ensures
            r@ == self@.0,
    {
        self.0
    }

    /// The parameters, borrowed.
    pub fn params(&self) -> (r: &Params)
        ensures
            r@ == self@.1,
    {
        &self.1
    }
}

/// The raw value and parameters of an `N` property.
#[derive(Debug, PartialEq, Eq)]
pub struct Name(String, Params);

impl View for Name {
    type V = (Seq<char>, Seq<(Seq<char>, Seq<char>)>);

    closed spec fn view(&self) -> (Seq<char>, Seq<(Seq<char>, Seq<char>)>) {
        (self.0@, self.1@)
    }
}

impl Name {
    /// Wraps a raw value and its parameters.
    pub fn new(raw: String, params: Params) -> (r: Name)
        ensures
            r@ == ((raw@, params@)),
    {
        Name(raw, params)
    }

    /// The wrapper for the given property's value and parameters.
    fn from_prop(p: &Property) -> (r: Name)
        ensures
            r@ == ((p@.value, p@.params)),
    {
        Name(p.raw_value.clone(), p.params.duplicate())
    }

    /// The raw value, borrowed.
    pub fn raw(&self) -> (r: &String)
        ensures
            r@ == self@.0,
    {
        &self.0
    }

    /// The raw value, moved out.
    pub fn into_raw(self) -> (r: String)
        ensures
            r@ == self@.0,
    {
        self.0
    }

    /// The parameters, borrowed.
    pub fn params(&self) -> (r: &Params)
        ensures
            r@ == self@.1,
    {
        &self.1
    }
}

/// The raw value and parameters of an `ORG` property.
#[derive(Debug, PartialEq, Eq)]
pub struct Organization(String, Params);

impl View for Organization {
    type V = (Seq<char>, Seq<(Seq<char>, Seq<char>)>);

    closed spec fn view(&self) -> (Seq<char>, Seq<(Seq<char>, Seq<char>)>) {
        (self.0@, self.1@)
    }
}

impl Organization {
    /// Wraps a raw value and its parameters.
    pub fn new(raw: String, params: Params) -> (r: Organization)
        ensures
            r@ == ((raw@, params@)),
    {
        Organization(raw, params)
    }

    /// The wrapper for the given property's value and parameters.
    fn from_prop(p: &Property) -> (r: Organization)
        ensures
            r@ == ((p@.value, p@.params)),
    {
        Organization(p.raw_value.clone(), p.params.duplicate())
    }

    /// The raw value, borrowed.
    pub fn raw(&self) -> (r: &String)
        ensures
            r@ == self@.0,
    {
        &self.0
    }

    /// The raw value, moved out.
    pub fn into_raw(self) -> (r: String)
        ensures
            r@ == self@.0,
    {
        self.0
    }

    /// The parameters, borrowed.
    pub fn params(&self) -> (r: &Params)
        ensures
            r@ == self@.1,
    {
        &self.1
    }
}

/// The raw value and parameters of a `TITLE` property.
#[derive(Debug, PartialEq, Eq)]
pub struct Title(String, Params);

impl View for Title {
    type V = (Seq<char>, Seq<(Seq<char>, Seq<char>)>);

    closed spec fn view(&self) -> (Seq<char>, Seq<(Seq<char>, Seq<char>)>) {
        (self.0@, self.1@)
    }
}

impl Title {
    /// Wraps a raw value and its parameters.
    pub fn new(raw: String, params: Params) -> (r: Title)
        ensures
            r@ == ((raw@, params@)),
    {
        Title(raw, params)
    }

    /// The wrapper for the given property's value and parameters.
    fn from_prop(p: &Property) -> (r: Title)
        ensures
            r@ == ((p@.value, p@.params)),
    {
        Title(p.raw_value.clone(), p.params.duplicate())
    }

    /// The raw value, borrowed.
    pub fn raw(&self) -> (r: &String)
        ensures
            r@ == self@.0,
    {
        &self.0
    }

    /// The raw value, moved out.
    pub fn into_raw(self) -> (r: String)
        ensures
            r@ == self@.0,
    {
        self.0
    }

    /// The parameters, borrowed.
    pub fn params(&self) -> (r: &Params)
        ensures
            r@ == self@.1,
    {
        &self.1
    }
}

impl Name {
    /// The whole (still `;`-separated) name text.
    pub fn plain(&self) -> (r: String)
        ensures
            r@ == self@.0,
    {
        self.0.clone()
    }

    /// The surname: the first `;`-separated field.
    pub fn surname(&self) -> (r: Option<String>)
        ensures
            match r {
                Some(t) => 0 < split_semi(self@.0).len() && t@ == split_semi(self@.0)[0],
                None => split_semi(self@.0).len() <= 0,
            },
    {
        nth_field(self.0.as_str(), 0)
    }

    /// The given name: the second `;`-separated field.
    pub fn given_name(&self) -> (r: Option<String>)
        ensures
            match r {
                Some(t) => 1 < split_semi(self@.0).len() && t@ == split_semi(self@.0)[1],
                None => split_semi(self@.0).len() <= 1,
            },
    {
        nth_field(self.0.as_str(), 1)
    }

    /// The additional names: the third `;`-separated field.
    pub fn additional_names(&self) -> (r: Option<String>)
        ensures
            match r {
                Some(t) => 2 < split_semi(self@.0).len() && t@ == split_semi(self@.0)[2],
                None => split_semi(self@.0).len() <= 2,
            },
    {
        nth_field(self.0.as_str(), 2)
    }

    /// The honorific prefixes: the fourth `;`-separated field.
    pub fn honorific_prefixes(&self) -> (r: Option<String>)
        ensures
            match r {
                Some(t) => 3 < split_semi(self@.0).len() && t@ == split_semi(self@.0)[3],
                None => split_semi(self@.0).len() <= 3,
            },
    {
        nth_field(self.0.as_str(), 3)
    }

    /// The honorific suffixes: the fifth `;`-separated field.
    pub fn honorific_suffixes(&self) -> (r: Option<String>)
        ensures
            match r {
                Some(t) => 4 < split_semi(self@.0).len() && t@ == split_semi(self@.0)[4],
                None => split_semi(self@.0).len() <= 4,
            },
    {
        nth_field(self.0.as_str(), 4)
    }

    /// Alias for [`Name::surname`].
    #[inline]
    pub fn family_name(&self) -> (r: Option<String>)
        ensures
            match r {
                Some(t) => 0 < split_semi(self@.0).len() && t@ == split_semi(self@.0)[0],
                None => split_semi(self@.0).len() <= 0,
            },
    {
        self.surname()
    }
}

/// The raw value and parameters of an `ANNIVERSARY` property.
#[derive(Debug, PartialEq, Eq)]
pub struct Anniversary(String, Params);

impl View for Anniversary {
    type V = (Seq<char>, Seq<(Seq<char>, Seq<char>)>);

    closed spec fn view(&self) -> (Seq<char>, Seq<(Seq<char>, Seq<char>)>) {
        (self.0@, self.1@)
    }
}

impl Anniversary {
    /// Wraps a raw value and its parameters.
    pub fn new(raw: String, params: Params) -> (r: Anniversary)
        ensures
            r@ == ((raw@, params@)),
    {
        Anniversary(raw, params)
    }

    /// The wrapper for the given property's value and parameters.
    fn from_prop(p: &Property) -> (r: Anniversary)
        ensures
            r@ == ((p@.value, p@.params)),
    {
        Anniversary(p.raw_value.clone(), p.params.duplicate())
    }

    /// The raw value, borrowed.
    pub fn raw(&self) -> (r: &String)
        ensures
            r@ == self@.0,
    {
        &self.0
    }

    /// The raw value, moved out.
    pub fn into_raw(self) -> (r: String)
        ensures
            r@ == self@.0,
    {
        self.0
    }

    /// The parameters, borrowed.
    pub fn params(&self) -> (r: &Params)
        ensures
            r@ == self@.1,
    {
        &self.1
    }
}

/// The raw value and parameters of a `BDAY` property.
#[derive(Debug, PartialEq, Eq)]
pub struct BDay(String, Params);

impl View for BDay {
    type V = (Seq<char>, Seq<(Seq<char>, Seq<char>)>);

    closed spec fn view(&self) -> (Seq<char>, Seq<(Seq<char>, Seq<char>)>) {
        (self.0@, self.1@)
    }
}

impl BDay {
    /// Wraps a raw value and its parameters.
    pub fn new(raw: String, params: Params) -> (r: BDay)
        ensures
            r@ == ((raw@, params@)),
    {
        BDay(raw, params)
    }

    /// The wrapper for the given property's value and parameters.
    fn from_prop(p: &Property) -> (r: BDay)
        ensures
            r@ == ((p@.value, p@.params)),
    {
        BDay(p.raw_value.clone(), p.params.duplicate())
    }

    /// The raw value, borrowed.
    pub fn raw(&self) -> (r: &String)
        ensures
            r@ == self@.0,
    {
        &self.0
    }

    /// The raw value, moved out.
    pub fn into_raw(self) -> (r: String)
        ensures
            r@ == self@.0,
    {
        self.0
    }

    /// The parameters, borrowed.
    pub fn params(&self) -> (r: &Params)
        ensures
            r@ == self@.1,
    {
        &self.1
    }
}

/// The raw value and parameters of a `CATEGORIES` property.
#[derive(Debug, PartialEq, Eq)]
pub struct Category(String, Params);

impl View for Category {
    type V = (Seq<char>, Seq<(Seq<char>, Seq<char>)>);

    closed spec fn view(&self) -> (Seq<char>, Seq<(Seq<char>, Seq<char>)>) {
        (self.0@, self.1@)
    }
}

impl Category {
    /// Wraps a raw value and its parameters.
    pub fn new(raw: String, params: Params) -> (r: Category)
        ensures
            r@ == ((raw@, params@)),
    {
        Category(raw, params)
    }

    /// The wrapper for the given property's value and parameters.
    fn from_prop(p: &Property) -> (r: Category)
        ensures
            r@ == ((p@.value, p@.params)),
    {
        Category(p.raw_value.clone(), p.params.duplicate())
    }

    /// The raw value, borrowed.
    pub fn raw(&self) -> (r: &String)
        ensures
            r@ == self@.0,
    {
        &self.0
    }

    /// The raw value, moved out.
    pub fn into_raw(self) -> (r: String)
        ensures
            r@ == self@.0,
    {
        self.0
    }

    /// The parameters, borrowed.
    pub fn params(&self) -> (r: &Params)
        ensures
            r@ == self@.1,
    {
        &self.1
    }
}

/// The raw value and parameters of a `CLIENTPIDMAP` property.
#[derive(Debug, PartialEq, Eq)]
pub struct ClientPidMap(String, Params);

impl View for ClientPidMap {
    type V = (Seq<char>, Seq<(Seq<char>, Seq<char>)>);

    closed spec fn view(&self) -> (Seq<char>, Seq<(Seq<char>, Seq<char>)>) {
        (self.0@, self.1@)
    }
}

impl ClientPidMap {
    /// Wraps a raw value and its parameters.
    pub fn new(raw: String, params: Params) -> (r: ClientPidMap)
        ensures
            r@ == ((raw@, params@)),
    {
        ClientPidMap(raw, params)
    }

    /// The wrapper for the given property's value and parameters.
    fn from_prop(p: &Property) -> (r: ClientPidMap)
        ensures
            r@ == ((p@.value, p@.params)),
    {
        ClientPidMap(p.raw_value.clone(), p.params.duplicate())
    }

    /// The raw value, borrowed.
    pub fn raw(&self) -> (r: &String)
        ensures
            r@ == self@.0,
    {
        &self.0
    }

    /// The raw value, moved out.
    pub fn into_raw(self) -> (r: String)
        ensures
            r@ == self@.0,
    {
        self.0
    }

    /// The parameters, borrowed.
    pub fn params(&self) -> (r: &Params)
        ensures
            r@ == self@.1,
    {
        &self.1
    }
}

/// The raw value and parameters of an `EMAIL` property.
#[derive(Debug, PartialEq, Eq)]
pub struct Email(String, Params);

impl View for Email {
    type V = (Seq<char>, Seq<(Seq<char>, Seq<char>)>);

    closed spec fn view(&self) -> (Seq<char>, Seq<(Seq<char>, Seq<char>)>) {
        (self.0@, self.1@)
    }
}

impl Email {
    /// Wraps a raw value and its parameters.
    pub fn new(raw: String, params: Params) -> (r: Email)
        ensures
            r@ == ((raw@, params@)),
    {
        Email(raw, params)
    }

    /// The wrapper for the given property's value and parameters.
    fn from_prop(p: &Property) -> (r: Email)
        ensures
            r@ == ((p@.value, p@.params)),
    {
        Email(p.raw_value.clone(), p.params.duplicate())
    }

    /// The raw value, borrowed.
    pub fn raw(&self) -> (r: &String)
        ensures
            r@ == self@.0,
    {
        &self.0
    }

    /// The raw value, moved out.
    pub fn into_raw(self) -> (r: String)
        ensures
            r@ == self@.0,
    {
        self.0
    }

    /// The parameters, borrowed.
    pub fn params(&self) -> (r: &Params)
        ensures
            r@ == self@.1,
    {
        &self.1
    }
}

/// The raw value and parameters of a `GENDER` property.
#[derive(Debug, PartialEq, Eq)]
pub struct Gender(String, Params);

impl View for Gender {
    type V = (Seq<char>, Seq<(Seq<char>, Seq<char>)>);

    closed spec fn view(&self) -> (Seq<char>, Seq<(Seq<char>, Seq<char>)>) {
        (self.0@, self.1@)
    }
}

impl Gender {
    /// Wraps a raw value and its parameters.
    pub fn new(raw: String, params: Params) -> (r: Gender)
        ensures
            r@ == ((raw@, params@)),
    {
        Gender(raw, params)
    }

    /// The wrapper for the given property's value and parameters.
    fn from_prop(p: &Property) -> (r: Gender)
        ensures
            r@ == ((p@.value, p@.params)),
    {
        Gender(p.raw_value.clone(), p.params.duplicate())
    }

    /// The raw value, borrowed.
    pub fn raw(&self) -> (r: &String)
        ensures
            r@ == self@.0,
    {
        &self.0
    }

    /// The raw value, moved out.
    pub fn into_raw(self) -> (r: String)
        ensures
            r@ == self@.0,
    {
        self.0
    }

    /// The parameters, borrowed.
    pub fn params(&self) -> (r: &Params)
        ensures
            r@ == self@.1,
    {
        &self.1
    }
}

/// The raw value and parameters of a `GEO` property.
#[derive(Debug, PartialEq, Eq)]
pub struct Geo(String, Params);

impl View for Geo {
    type V = (Seq<char>, Seq<(Seq<char>, Seq<char>)>);

    closed spec fn view(&self) -> (Seq<char>, Seq<(Seq<char>, Seq<char>)>) {
        (self.0@, self.1@)
    }
}

impl Geo {
    /// Wraps a raw value and its parameters.
    pub fn new(raw: String, params: Params) -> (r: Geo)
        ensures
            r@ == ((raw@, params@)),
    {
        Geo(raw, params)
    }

    /// The wrapper for the given property's value and parameters.
    fn from_prop(p: &Property) -> (r: Geo)
        ensures
            r@ == ((p@.value, p@.params)),
    {
        Geo(p.raw_value.clone(), p.params.duplicate())
    }

    /// The raw value, borrowed.
    pub fn raw(&self) -> (r: &String)
        ensures
            r@ == self@.0,
    {
        &self.0
    }

    /// The raw value, moved out.
    pub fn into_raw(self) -> (r: String)
        ensures
            r@ == self@.0,
    {
        self.0
    }

    /// The parameters, borrowed.
    pub fn params(&self) -> (r: &Params)
        ensures
            r@ == self@.1,
    {
        &self.1
    }
}

/// The raw value and parameters of an `IMPP` property.
#[derive(Debug, PartialEq, Eq)]
pub struct IMPP(String, Params);

impl View for IMPP {
    type V = (Seq<char>, Seq<(Seq<char>, Seq<char>)>);

    closed spec fn view(&self) -> (Seq<char>, Seq<(Seq<char>, Seq<char>)>) {
        (self.0@, self.1@)
    }
}

impl IMPP {
    /// Wraps a raw value and its parameters.
    pub fn new(raw: String, params: Params) -> (r: IMPP)
        ensures
            r@ == ((raw@, params@)),
    {
        IMPP(raw, params)
    }

    /// The wrapper for the given property's value and parameters.
    fn from_prop(p: &Property) -> (r: IMPP)
        ensures
            r@ == ((p@.value, p@.params)),
    {
        IMPP(p.raw_value.clone(), p.params.duplicate())
    }

    /// The raw value, borrowed.
    pub fn raw(&self) -> (r: &String)
        ensures
            r@ == self@.0,
    {
        &self.0
    }

    /// The raw value, moved out.
    pub fn into_raw(self) -> (r: String)
        ensures
            r@ == self@.0,
    {
        self.0
    }

    /// The parameters, borrowed.
    pub fn params(&self) -> (r: &Params)
        ensures
            r@ == self@.1,
    {
        &self.1
    }
}

/// The raw value and parameters of a `KEY` property.
#[derive(Debug, PartialEq, Eq)]
pub struct Key(String, Params);

impl View for Key {
    type V = (Seq<char>, Seq<(Seq<char>, Seq<char>)>);

    closed spec fn view(&self) -> (Seq<char>, Seq<(Seq<char>, Seq<char>)>) {
        (self.0@, self.1@)
    }
}

impl Key {
    /// Wraps a raw value and its parameters.
    pub fn new(raw: String, params: Params) -> (r: Key)
        ensures
            r@ == ((raw@, params@)),
    {
        Key(raw, params)
    }

    /// The wrapper for the given property's value and parameters.
    fn from_prop(p: &Property) -> (r: Key)
        ensures
            r@ == ((p@.value, p@.params)),
    {
        Key(p.raw_value.clone(), p.params.duplicate())
    }

    /// The raw value, borrowed.
    pub fn raw(&self) -> (r: &String)
        ensures
            r@ == self@.0,
    {
        &self.0
    }

    /// The raw value, moved out.
    pub fn into_raw(self) -> (r: String)
        ensures
            r@ == self@.0,
    {
        self.0
    }

    /// The parameters, borrowed.
    pub fn params(&self) -> (r: &Params)
        ensures
            r@ == self@.1,
    {
        &self.1
    }
}

/// The raw value and parameters of a `LANG` property.
#[derive(Debug, PartialEq, Eq)]
pub struct Lang(String, Params);

impl View for Lang {
    type V = (Seq<char>, Seq<(Seq<char>, Seq<char>)>);

    closed spec fn view(&self) -> (Seq<char>, Seq<(Seq<char>, Seq<char>)>) {
        (self.0@, self.1@)
    }
}

impl Lang {
    /// Wraps a raw value and its parameters.
    pub fn new(raw: String, params: Params) -> (r: Lang)
        ensures
            r@ == ((raw@, params@)),
    {
        Lang(raw, params)
    }

    /// The wrapper for the given property's value and parameters.
    fn from_prop(p: &Property) -> (r: Lang)
        ensures
            r@ == ((p@.value, p@.params)),
    {
        Lang(p.raw_value.clone(), p.params.duplicate())
    }

    /// The raw value, borrowed.
    pub fn raw(&self) -> (r: &String)
        ensures
            r@ == self@.0,
    {
        &self.0
    }

    /// The raw value, moved out.
    pub fn into_raw(self) -> (r: String)
        ensures
            r@ == self@.0,
    {
        self.0
    }

    /// The parameters, borrowed.
    pub fn params(&self) -> (r: &Params)
        ensures
            r@ == self@.1,
    {
        &self.1
    }
}

/// The raw value and parameters of a `LOGO` property.
#[derive(Debug, PartialEq, Eq)]
pub struct Logo(String, Params);

impl View for Logo {
    type V = (Seq<char>, Seq<(Seq<char>, Seq<char>)>);

    closed spec fn view(&self) -> (Seq<char>, Seq<(Seq<char>, Seq<char>)>) {
        (self.0@, self.1@)
    }
}

impl Logo {
    /// Wraps a raw value and its parameters.
    pub fn new(raw: String, params: Params) -> (r: Logo)
        ensures
            r@ == ((raw@, params@)),
    {
        Logo(raw, params)
    }

    /// The wrapper for the given property's value and parameters.
    fn from_prop(p: &Property) -> (r: Logo)
        ensures
            r@ == ((p@.value, p@.params)),
    {
        Logo(p.raw_value.clone(), p.params.duplicate())
    }

    /// The raw value, borrowed.
    pub fn raw(&self) -> (r: &String)
        ensures
            r@ == self@.0,
    {
        &self.0
    }

    /// The raw value, moved out.
    pub fn into_raw(self) -> (r: String)
        ensures
            r@ == self@.0,
    {
        self.0
    }

    /// The parameters, borrowed.
    pub fn params(&self) -> (r: &Params)
        ensures
            r@ == self@.1,
    {
        &self.1
    }
}

/// The raw value and parameters of a `MEMBER` property.
#[derive(Debug, PartialEq, Eq)]
pub struct Member(String, Params);

impl View for Member {
    type V = (Seq<char>, Seq<(Seq<char>, Seq<char>)>);

    closed spec fn view(&self) -> (Seq<char>, Seq<(Seq<char>, Seq<char>)>) {
        (self.0@, self.1@)
    }
}

impl Member {
    /// Wraps a raw value and its parameters.
    pub fn new(raw: String, params: Params) -> (r: Member)
        ensures
            r@ == ((raw@, params@)),
    {
        Member(raw, params)
    }

    /// The wrapper for the given property's value and parameters.
    fn from_prop(p: &Property) -> (r: Member)
        ensures
            r@ == ((p@.value, p@.params)),
    {
        Member(p.raw_value.clone(), p.params.duplicate())
    }

    /// The raw value, borrowed.
    pub fn raw(&self) -> (r: &String)
        ensures
            r@ == self@.0,
    {
        &self.0
    }

    /// The raw value, moved out.
    pub fn into_raw(self) -> (r: String)
        ensures
            r@ == self@.0,
    {
        self.0
    }

    /// The parameters, borrowed.
    pub fn params(&self) -> (r: &Params)
        ensures
            r@ == self@.1,
    {
        &self.1
    }
}

/// The raw value and parameters of a `NICKNAME` property.
#[derive(Debug, PartialEq, Eq)]
pub struct NickName(String, Params);

impl View for NickName {
    type V = (Seq<char>, Seq<(Seq<char>, Seq<char>)>);

    closed spec fn view(&self) -> (Seq<char>, Seq<(Seq<char>, Seq<char>)>) {
        (self.0@, self.1@)
    }
}

impl NickName {
    /// Wraps a raw value and its parameters.
    pub fn new(raw: String, params: Params) -> (r: NickName)
        ensures
            r@ == ((raw@, params@)),
    {
        NickName(raw, params)
    }

    /// The wrapper for the given property's value and parameters.
    fn from_prop(p: &Property) -> (r: NickName)
        ensures
            r@ == ((p@.value, p@.params)),
    {
        NickName(p.raw_value.clone(), p.params.duplicate())
    }

    /// The raw value, borrowed.
    pub fn raw(&self) -> (r: &String)
        ensures
            r@ == self@.0,
    {
        &self.0
    }

    /// The raw value, moved out.
    pub fn into_raw(self) -> (r: String)
        ensures
            r@ == self@.0,
    {
        self.0
    }

    /// The parameters, borrowed.
    pub fn params(&self) -> (r: &Params)
        ensures
            r@ == self@.1,
    {
        &self.1
    }
}

/// The raw value and parameters of a `NOTE` property.
#[derive(Debug, PartialEq, Eq)]
pub struct Note(String, Params);

impl View for Note {
    type V = (Seq<char>, Seq<(Seq<char>, Seq<char>)>);

    closed spec fn view(&self) -> (Seq<char>, Seq<(Seq<char>, Seq<char>)>) {
        (self.0@, self.1@)
    }
}

impl Note {
    /// Wraps a raw value and its parameters.
    pub fn new(raw: String, params: Params) -> (r: Note)
        ensures
            r@ == ((raw@, params@)),
    {
        Note(raw, params)
    }

    /// The wrapper for the given property's value and parameters.
    fn from_prop(p: &Property) -> (r: Note)
        ensures
            r@ == ((p@.value, p@.params)),
    {
        Note(p.raw_value.clone(), p.params.duplicate())
    }

    /// The raw value, borrowed.
    pub fn raw(&self) -> (r: &String)
        ensures
            r@ == self@.0,
    {
        &self.0
    }

    /// The raw value, moved out.
    pub fn into_raw(self) -> (r: String)
        ensures
            r@ == self@.0,
    {
        self.0
    }

    /// The parameters, borrowed.
    pub fn params(&self) -> (r: &Params)
        ensures
            r@ == self@.1,
    {
        &self.1
    }
}

/// The raw value and parameters of a `PHOTO` property.
#[derive(Debug, PartialEq, Eq)]
pub struct Photo(String, Params);

impl View for Photo {
    type V = (Seq<char>, Seq<(Seq<char>, Seq<char>)>);

    closed spec fn view(&self) -> (Seq<char>, Seq<(Seq<char>, Seq<char>)>) {
        (self.0@, self.1@)
    }
}

impl Photo {
    /// Wraps a raw value and its parameters.
    pub fn new(raw: String, params: Params) -> (r: Photo)
        ensures
            r@ == ((raw@, params@)),
    {
        Photo(raw, params)
    }

    /// The wrapper for the given property's value and parameters.
    fn from_prop(p: &Property) -> (r: Photo)
        ensures
            r@ == ((p@.value, p@.params)),
    {
        Photo(p.raw_value.clone(), p.params.duplicate())
    }

    /// The raw value, borrowed.
    pub fn raw(&self) -> (r: &String)
        ensures
            r@ == self@.0,
    {
        &self.0
    }

    /// The raw value, moved out.
    pub fn into_raw(self) -> (r: String)
        ensures
            r@ == self@.0,
    {
        self.0
    }

    /// The parameters, borrowed.
    pub fn params(&self) -> (r: &Params)
        ensures
            r@ == self@.1,
    {
        &self.1
    }
}

/// The raw value and parameters of a `PRIOD` property.
#[derive(Debug, PartialEq, Eq)]
pub struct Proid(String, Params);

impl View for Proid {
    type V = (Seq<char>, Seq<(Seq<char>, Seq<char>)>);

    closed spec fn view(&self) -> (Seq<char>, Seq<(Seq<char>, Seq<char>)>) {
        (self.0@, self.1@)
    }
}

impl Proid {
    /// Wraps a raw value and its parameters.
    pub fn new(raw: String, params: Params) -> (r: Proid)
        ensures
            r@ == ((raw@, params@)),
    {
        Proid(raw, params)
    }

    /// The wrapper for the given property's value and parameters.
    fn from_prop(p: &Property) -> (r: Proid)
        ensures
            r@ == ((p@.value, p@.params)),
    {
        Proid(p.raw_value.clone(), p.params.duplicate())
    }

    /// The raw value, borrowed.
    pub fn raw(&self) -> (r: &String)
        ensures
            r@ == self@.0,
    {
        &self.0
    }

    /// The raw value, moved out.
    pub fn into_raw(self) -> (r: String)
        ensures
            r@ == self@.0,
    {
        self.0
    }

    /// The parameters, borrowed.
    pub fn params(&self) -> (r: &Params)
        ensures
            r@ == self@.1,
    {
        &self.1
    }
}

/// The raw value and parameters of a `RELATED` property.
#[derive(Debug, PartialEq, Eq)]
pub struct Related(String, Params);

impl View for Related {
    type V = (Seq<char>, Seq<(Seq<char>, Seq<char>)>);

    closed spec fn view(&self) -> (Seq<char>, Seq<(Seq<char>, Seq<char>)>) {
        (self.0@, self.1@)
    }
}

impl Related {
    /// Wraps a raw value and its parameters.
    pub fn new(raw: String, params: Params) -> (r: Related)
        ensures
            r@ == ((raw@, params@)),
    {
        Related(raw, params)
    }

    /// The wrapper for the given property's value and parameters.
    fn from_prop(p: &Property) -> (r: Related)
        ensures
            r@ == ((p@.value, p@.params)),
    {
        Related(p.raw_value.clone(), p.params.duplicate())
    }

    /// The raw value, borrowed.
    pub fn raw(&self) -> (r: &String)
        ensures
            r@ == self@.0,
    {
        &self.0
    }

    /// The raw value, moved out.
    pub fn into_raw(self) -> (r: String)
        ensures
            r@ == self@.0,
    {
        self.0
    }

    /// The parameters, borrowed.
    pub fn params(&self) -> (r: &Params)
        ensures
            r@ == self@.1,
    {
        &self.1
    }
}

/// The raw value and parameters of a `REV` property.
#[derive(Debug, PartialEq, Eq)]
pub struct Rev(String, Params);

impl View for Rev {
    type V = (Seq<char>, Seq<(Seq<char>, Seq<char>)>);

    closed spec fn view(&self) -> (Seq<char>, Seq<(Seq<char>, Seq<char>)>) {
        (self.0@, self.1@)
    }
}

impl Rev {
    /// Wraps a raw value and its parameters.
    pub fn new(raw: String, params: Params) -> (r: Rev)
        ensures
            r@ == ((raw@, params@)),
    {
        Rev(raw, params)
    }

    /// The wrapper for the given property's value and parameters.
    fn from_prop(p: &Property) -> (r: Rev)
        ensures
            r@ == ((p@.value, p@.params)),
    {
        Rev(p.raw_value.clone(), p.params.duplicate())
    }

    /// The raw value, borrowed.
    pub fn raw(&self) -> (r: &String)
        ensures
            r@ == self@.0,
    {
        &self.0
    }

    /// The raw value, moved out.
    pub fn into_raw(self) -> (r: String)
        ensures
            r@ == self@.0,
    {
        self.0
    }

    /// The parameters, borrowed.
    pub fn params(&self) -> (r: &Params)
        ensures
            r@ == self@.1,
    {
        &self.1
    }
}

/// The raw value and parameters of a `SOUND` property.
#[derive(Debug, PartialEq, Eq)]
pub struct Sound(String, Params);

impl View for Sound {
    type V = (Seq<char>, Seq<(Seq<char>, Seq<char>)>);

    closed spec fn view(&self) -> (Seq<char>, Seq<(Seq<char>, Seq<char>)>) {
        (self.0@, self.1@)
    }
}

impl Sound {
    /// Wraps a raw value and its parameters.
    pub fn new(raw: String, params: Params) -> (r: Sound)
        ensures
            r@ == ((raw@, params@)),
    {
        Sound(raw, params)
    }

    /// The wrapper for the given property's value and parameters.
    fn from_prop(p: &Property) -> (r: Sound)
        ensures
            r@ == ((p@.value, p@.params)),
    {
        Sound(p.raw_value.clone(), p.params.duplicate())
    }

    /// The raw value, borrowed.
    pub fn raw(&self) -> (r: &String)
        ensures
            r@ == self@.0,
    {
        &self.0
    }

    /// The raw value, moved out.
    pub fn into_raw(self) -> (r: String)
        ensures
            r@ == self@.0,
    {
        self.0
    }

    /// The parameters, borrowed.
    pub fn params(&self) -> (r: &Params)
        ensures
            r@ == self@.1,
    {
        &self.1
    }
}

/// The raw value and parameters of a `TEL` property.
#[derive(Debug, PartialEq, Eq)]
pub struct Tel(String, Params);

impl View for Tel {
    type V = (Seq<char>, Seq<(Seq<char>, Seq<char>)>);

    closed spec fn view(&self) -> (Seq<char>, Seq<(Seq<char>, Seq<char>)>) {
        (self.0@, self.1@)
    }
}

impl Tel {
    /// Wraps a raw value and its parameters.
    pub fn new(raw: String, params: Params) -> (r: Tel)
        ensures
            r@ == ((raw@, params@)),
    {
        Tel(raw, params)
    }

    /// The wrapper for the given property's value and parameters.
    fn from_prop(p: &Property) -> (r: Tel)
        ensures
            r@ == ((p@.value, p@.params)),
    {
        Tel(p.raw_value.clone(), p.params.duplicate())
    }

    /// The raw value, borrowed.
    pub fn raw(&self) -> (r: &String)
        ensures
            r@ == self@.0,
    {
        &self.0
    }

    /// The raw value, moved out.
    pub fn into_raw(self) -> (r: String)
        ensures
            r@ == self@.0,
    {
        self.0
    }

    /// The parameters, borrowed.
    pub fn params(&self) -> (r: &Params)
        ensures
            r@ == self@.1,
    {
        &self.1
    }
}

/// The raw value and parameters of a `TZ` property.
#[derive(Debug, PartialEq, Eq)]
pub struct Tz(String, Params);

impl View for Tz {
    type V = (Seq<char>, Seq<(Seq<char>, Seq<char>)>);

    closed spec fn view(&self) -> (Seq<char>, Seq<(Seq<char>, Seq<char>)>) {
        (self.0@, self.1@)
    }
}

impl Tz {
    /// Wraps a raw value and its parameters.
    pub fn new(raw: String, params: Params) -> (r: Tz)
        ensures
            r@ == ((raw@, params@)),
    {
        Tz(raw, params)
    }

    /// The wrapper for the given property's value and parameters.
    fn from_prop(p: &Property) -> (r: Tz)
        ensures
            r@ == ((p@.value, p@.params)),
    {
        Tz(p.raw_value.clone(), p.params.duplicate())
    }

    /// The raw value, borrowed.
    pub fn raw(&self) -> (r: &String)
        ensures
            r@ == self@.0,
    {
        &self.0
    }

    /// The raw value, moved out.
    pub fn into_raw(self) -> (r: String)
        ensures
            r@ == self@.0,
    {
        self.0
    }

    /// The parameters, borrowed.
    pub fn params(&self) -> (r: &Params)
        ensures
            r@ == self@.1,
    {
        &self.1
    }
}

/// The raw value and parameters of a `UID` property.
#[derive(Debug, PartialEq, Eq)]
pub struct Uid(String, Params);

impl View for Uid {
    type V = (Seq<char>, Seq<(Seq<char>, Seq<char>)>);

    closed spec fn view(&self) -> (Seq<char>, Seq<(Seq<char>, Seq<char>)>) {
        (self.0@, self.1@)
    }
}

impl Uid {
    /// Wraps a raw value and its parameters.
    pub fn new(raw: String, params: Params) -> (r: Uid)
        ensures
            r@ == ((raw@, params@)),
    {
        Uid(raw, params)
    }

    /// The wrapper for the given property's value and parameters.
    fn from_prop(p: &Property) -> (r: Uid)
        ensures
            r@ == ((p@.value, p@.params)),
    {
        Uid(p.raw_value.clone(), p.params.duplicate())
    }

    /// The raw value, borrowed.
    pub fn raw(&self) -> (r: &String)
        ensures
            r@ == self@.0,
    {
        &self.0
    }

    /// The raw value, moved out.
    pub fn into_raw(self) -> (r: String)
        ensures
            r@ == self@.0,
    {
        self.0
    }

    /// The parameters, borrowed.
    pub fn params(&self) -> (r: &Params)
        ensures
            r@ == self@.1,
    {
        &self.1
    }
}

/// The raw value and parameters of a `URL` property.
#[derive(Debug, PartialEq, Eq)]
pub struct Url(String, Params);

impl View for Url {
    type V = (Seq<char>, Seq<(Seq<char>, Seq<char>)>);

    closed spec fn view(&self) -> (Seq<char>, Seq<(Seq<char>, Seq<char>)>) {
        (self.0@, self.1@)
    }
}

impl Url {
    /// Wraps a raw value and its parameters.
    pub fn new(raw: String, params: Params) -> (r: Url)
        ensures
            r@ == ((raw@, params@)),
    {
        Url(raw, params)
    }

    /// The wrapper for the given property's value and parameters.
    fn from_prop(p: &Property) -> (r: Url)
        ensures
            r@ == ((p@.value, p@.params)),
    {
        Url(p.raw_value.clone(), p.params.duplicate())
    }

    /// The raw value, borrowed.
    pub fn raw(&self) -> (r: &String)
        ensures
            r@ == self@.0,
    {
        &self.0
    }

    /// The raw value, moved out.
    pub fn into_raw(self) -> (r: String)
        ensures
            r@ == self@.0,
    {
        self.0
    }

    /// The parameters, borrowed.
    pub fn params(&self) -> (r: &Params)
        ensures
            r@ == self@.1,
    {
        &self.1
    }
}

/// The raw value and parameters of a `VERSION` property.
#[derive(Debug, PartialEq, Eq)]
pub struct Version(String, Params);

impl View for Version {
    type V = (Seq<char>, Seq<(Seq<char>, Seq<char>)>);

    closed spec fn view(&self) -> (Seq<char>, Seq<(Seq<char>, Seq<char>)>) {
        (self.0@, self.1@)
    }
}

impl Version {
    /// Wraps a raw value and its parameters.
    pub fn new(raw: String, params: Params) -> (r: Version)
        ensures
            r@ == ((raw@, params@)),
    {
        Version(raw, params)
    }

    /// The wrapper for the given property's value and parameters.
    fn from_prop(p: &Property) -> (r: Version)
        ensures
            r@ == ((p@.value, p@.params)),
    {
        Version(p.raw_value.clone(), p.params.duplicate())
    }

    /// The raw value, borrowed.
    pub fn raw(&self) -> (r: &String)
        ensures
            r@ == self@.0,
    {
        &self.0
    }

    /// The raw value, moved out.
    pub fn into_raw(self) -> (r: String)
        ensures
            r@ == self@.0,
    {
        self.0
    }

    /// The parameters, borrowed.
    pub fn params(&self) -> (r: &Params)
        ensures
            r@ == self@.1,
    {
        &self.1
    }
}

/// A vCard: a component named `VCARD`. It holds data and accessors over it;
/// it computes nothing further.
#[derive(Debug)]
pub struct Vcard(Component);

impl View for Vcard {
    type V = CompModel;

    closed spec fn view(&self) -> CompModel {
        self.0@
    }
}

/// A placeholder for building vCards step by step; the chainable `with_`
/// methods on [`Vcard`] do that work.
pub struct VcardBuilder(Component);

impl Vcard {
    /// The wrapped component's property store has sorted keys.
    pub open spec fn wf(&self) -> bool {
        entries_sorted(self@.props)
    }

    /// Parses a string into a vCard; text that parses to any other kind of
    /// component is rejected as well.
    pub fn build(s: &str) -> (r: Result<Vcard, VObjectError>)
        ensures
            match sp_component(s@, 0) {
                Some((m, e)) => {
                    if e == s@.len() {
                        if m.name == "VCARD"@ {
                            r matches Ok(v) && v@ == m && model_wf(m)
                        } else {
                            r matches Err(VObjectError::NotAVCard)
                        }
                    } else {
                        r matches Err(VObjectError::Parser(pe)) && pe@ == parse_err_desc(s@)
                    }
                },
                None => r matches Err(VObjectError::Parser(pe)) && pe@ == parse_err_desc(s@),
            },
    {
        let c = match parse_component(s) {
            Ok(c) => c,
            Err(e) => {
                return Err(e);
            }
        };
        match Self::from_component(c) {
            Ok(v) => Ok(v),
            Err(_) => Err(VObjectError::NotAVCard),
        }
    }

    /// The wrapped component, borrowed.
    pub fn component(&self) -> (r: &Component)
        ensures
            r@ == self@,
    {
        &self.0
    }

    /// Wraps a component into a vCard, or hands it back if it is not one.
    pub fn from_component(c: Component) -> (r: Result<Vcard, Component>)
        ensures
            match r {
                Ok(v) => c@.name == "VCARD"@ && v@ == c@,
                Err(d) => c@.name != "VCARD"@ && d@ == c@,
            },
    {
        if str_eq(c.name.as_str(), "VCARD") {
            Ok(Vcard(c))
        } else {
            Err(c)
        }
    }

    /// An empty vCard (version 3.0).
    pub fn new() -> (r: Vcard)
        ensures
            r@.name == "VCARD"@,
            r@.props == props_push(
                Seq::<(Seq<char>, Seq<PropModel>)>::empty(),
                (PropModel {
                    group: None,
                    name: "VERSION"@,
                    params: Seq::empty(),
                    value: spec_escape("3.0"@),
                }),
            ),
            r@.subs.len() == 0,
            r.wf(),
    {
        Vcard::new_with_version("3.0")
    }

    /// An empty vCard carrying the given version.
    pub fn new_with_version(version: &str) -> (r: Vcard)
        ensures
            r@.name == "VCARD"@,
            r@.props == props_push(
                Seq::<(Seq<char>, Seq<PropModel>)>::empty(),
                (PropModel {
                    group: None,
                    name: "VERSION"@,
                    params: Seq::empty(),
                    value: spec_escape(version@),
                }),
            ),
            r@.subs.len() == 0,
            r.wf(),
    {
        let mut comp = Component::new("VCARD");
        let p = Property::new("VERSION", version);
        proof {
            assert(comp@.props =~= Seq::<(Seq<char>, Seq<PropModel>)>::empty());
            assert(p@.params =~= Seq::<(Seq<char>, Seq<char>)>::empty());
            assert(comp@.subs =~= Seq::<CompModel>::empty());
        }
        comp.push(p);
        let r = Vcard(comp);
        proof {
            assert(r@.subs =~= Seq::<CompModel>::empty());
        }
        r
    }

    /// One property's unescaped value, when the name has exactly one.
    fn prop_as_str(&self, propname: &str) -> (r: Option<String>)
        requires
            self.wf(),
        ensures
            match map_val(self@.props, propname@) {
                Some(vs) => {
                    if vs.len() == 1 {
                        r matches Some(t) && t@ == spec_unescape(vs[0].value)
                    } else {
                        r is None
                    }
                },
                None => r is None,
            },
    {
        match self.0.get_only(propname) {
            Some(p) => Some(p.value_as_string()),
            None => None,
        }
    }

    /// All of one name's unescaped values, in encounter order.
    fn props_as_str(&self, propname: &str) -> (r: Vec<String>)
        requires
            self.wf(),
        ensures
            ({
                let vs = match map_val(self@.props, propname@) {
                    Some(vs) => vs,
                    None => Seq::<PropModel>::empty(),
                };
                r@.len() == vs.len() && (forall|i: int|
                    0 <= i < vs.len() ==> r@[i]@ == spec_unescape(vs[i].value))
            }),
    {
        let props = self.0.get_all(propname);
        let n = props.len();
        let mut out: Vec<String> = Vec::new();
        let mut i: usize = 0;
        while i < n
            invariant
                n == props@.len(),
                props.deep_view() == (match map_val(self@.props, propname@) {
                    Some(vs) => vs,
                    None => Seq::<PropModel>::empty(),
                }),
                i <= n,
                out@.len() == i,
                forall|t: int| 0 <= t < i ==> out@[t]@ == spec_unescape(props@[t]@.value),
            decreases n - i,
        {
            out.push(vec_index(&props, i).value_as_string());
            i = i + 1;
        }
        proof {
            assert forall|t: int| 0 <= t < n implies props.deep_view()[t] == props@[t]@ by {}
        }
        out
    }

    /// The unescaped `VERSION` value, if there is exactly one.
    pub fn unescaped_version(&self) -> (r: Option<String>)
        requires
            self.wf(),
        ensures
            match map_val(self@.props, "VERSION"@) {
                Some(vs) => {
                    if vs.len() == 1 {
                        r matches Some(t) && t@ == spec_unescape(vs[0].value)
                    } else {
                        r is None
                    }
                },
                None => r is None,
            },
    {
        self.prop_as_str("VERSION")
    }

    /// The unescaped `UID` value, if there is exactly one.
    pub fn unescaped_uid(&self) -> (r: Option<String>)
        requires
            self.wf(),
        ensures
            match map_val(self@.props, "UID"@) {
                Some(vs) => {
                    if vs.len() == 1 {
                        r matches Some(t) && t@ == spec_unescape(vs[0].value)
                    } else {
                        r is None
                    }
                },
                None => r is None,
            },
    {
        self.prop_as_str("UID")
    }

    /// The unescaped `REV` value, if there is exactly one.
    pub fn unescaped_rev(&self) -> (r: Option<String>)
        requires
            self.wf(),
        ensures
            match map_val(self@.props, "REV"@) {
                Some(vs) => {
                    if vs.len() == 1 {
                        r matches Some(t) && t@ == spec_unescape(vs[0].value)
                    } else {
                        r is None
                    }
                },
                None => r is None,
            },
    {
        self.prop_as_str("REV")
    }

    /// The unescaped `N` value, if there is exactly one.
    pub fn unescaped_name(&self) -> (r: Option<String>)
        requires
            self.wf(),
        ensures
            match map_val(self@.props, "N"@) {
                Some(vs) => {
                    if vs.len() == 1 {
                        r matches Some(t) && t@ == spec_unescape(vs[0].value)
                    } else {
                        r is None
                    }
                },
                None => r is None,
            },
    {
        self.prop_as_str("N")
    }

    /// The unescaped `FN` value, if there is exactly one.
    pub fn unescaped_fullname(&self) -> (r: Option<String>)
        requires
            self.wf(),
        ensures
            match map_val(self@.props, "FN"@) {
                Some(vs) => {
                    if vs.len() == 1 {
                        r matches Some(t) && t@ == spec_unescape(vs[0].value)
                    } else {
                        r is None
                    }
                },
                None => r is None,
            },
    {
        self.prop_as_str("FN")
    }

    /// The unescaped `PRODID` value, if there is exactly one.
    pub fn unescaped_prodid(&self) -> (r: Option<String>)
        requires
            self.wf(),
        ensures
            match map_val(self@.props, "PRODID"@) {
                Some(vs) => {
                    if vs.len() == 1 {
                        r matches Some(t) && t@ == spec_unescape(vs[0].value)
                    } else {
                        r is None
                    }
                },
                None => r is None,
            },
    {
        self.prop_as_str("PRODID")
    }

    /// All unescaped `TEL` values, in encounter order.
    pub fn unescaped_tels(&self) -> (r: Vec<String>)
        requires
            self.wf(),
        ensures
            ({
                let vs = match map_val(self@.props, "TEL"@) {
                    Some(vs) => vs,
                    None => Seq::<PropModel>::empty(),
                };
                r@.len() == vs.len() && (forall|i: int|
                    0 <= i < vs.len() ==> r@[i]@ == spec_unescape(vs[i].value))
            }),
    {
        self.props_as_str("TEL")
    }

    /// All unescaped `EMAIL` values, in encounter order.
    pub fn unescaped_emails(&self) -> (r: Vec<String>)
        requires
            self.wf(),
        ensures
            ({
                let vs = match map_val(self@.props, "EMAIL"@) {
                    Some(vs) => vs,
                    None => Seq::<PropModel>::empty(),
                };
                r@.len() == vs.len() && (forall|i: int|
                    0 <= i < vs.len() ==> r@[i]@ == spec_unescape(vs[i].value))
            }),
    {
        self.props_as_str("EMAIL")
    }

    /// Replaces the last `FN` property with one holding the given (escaped
    /// on the way in) full name.
    pub fn set_fullname(&mut self, fullname: String)
        requires
            old(self).wf(),
        ensures
            final(self).wf(),
            final(self)@.name == old(self)@.name,
            final(self)@.subs == old(self)@.subs,
            final(self)@.props == props_push(
                props_pop(old(self)@.props, "FN"@),
                (PropModel {
                    group: None,
                    name: "FN"@,
                    params: Seq::empty(),
                    value: spec_escape(fullname@),
                }),
            ),
    {
        let _ = self.0.pop("FN");
        let p = Property::new("FN", fullname.as_str());
        proof {
            assert(p@.params =~= Seq::<(Seq<char>, Seq<char>)>::empty());
        }
        self.0.push(p);
    }

    /// Appends an `EMAIL` property holding the given (escaped on the way
    /// in) address.
    pub fn push_mail(&mut self, mail: String)
        requires
            old(self).wf(),
        ensures
            final(self).wf(),
            final(self)@.name == old(self)@.name,
            final(self)@.subs == old(self)@.subs,
            final(self)@.props == props_push(
                old(self)@.props,
                (PropModel {
                    group: None,
                    name: "EMAIL"@,
                    params: Seq::empty(),
                    value: spec_escape(mail@),
                }),
            ),
    {
        let p = Property::new("EMAIL", mail.as_str());
        proof {
            assert(p@.params =~= Seq::<(Seq<char>, Seq<char>)>::empty());
        }
        self.0.push(p);
    }

    /// All `ADR` properties, wrapped, in encounter order.
    pub fn adr(&self) -> (r: Vec<Adr>)
        requires
            self.wf(),
        ensures
            ({
                let vs = match map_val(self@.props, "ADR"@) {
                    Some(vs) => vs,
                    None => Seq::<PropModel>::empty(),
                };
                r@.len() == vs.len() && (forall|i: int|
                    0 <= i < vs.len() ==> r@[i]@ == ((vs[i].value, vs[i].params)))
            }),
    {
        let props = self.0.get_all("ADR");
        let n = props.len();
        let mut out: Vec<Adr> = Vec::new();
        let mut i: usize = 0;
        while i < n
            invariant
                n == props@.len(),
                props.deep_view() == (match map_val(self@.props, "ADR"@) {
                    Some(vs) => vs,
                    None => Seq::<PropModel>::empty(),
                }),
                i <= n,
                out@.len() == i,
                forall|t: int|
                    0 <= t < i ==> out@[t]@ == ((props@[t]@.value, props@[t]@.params)),
            decreases n - i,
        {
            out.push(Adr::from_prop(vec_index(&props, i)));
            i = i + 1;
        }
        proof {
            assert forall|t: int| 0 <= t < n implies props.deep_view()[t] == props@[t]@ by {}
        }
        out
    }

    /// All `FN` properties, wrapped, in encounter order.
    pub fn fullname(&self) -> (r: Vec<FullName>)
        requires
            self.wf(),
        ensures
            ({
                let vs = match map_val(self@.props, "FN"@) {
                    Some(vs) => vs,
                    None => Seq::<PropModel>::empty(),
                };
                r@.len() == vs.len() && (forall|i: int|
                    0 <= i < vs.len() ==> r@[i]@ == ((vs[i].value, vs[i].params)))
            }),
    {
        let props = self.0.get_all("FN");
        let n = props.len();
        let mut out: Vec<FullName> = Vec::new();
        let mut i: usize = 0;
        while i < n
            invariant
                n == props@.len(),
                props.deep_view() == (match map_val(self@.props, "FN"@) {
                    Some(vs) => vs,
                    None => Seq::<PropModel>::empty(),
                }),
                i <= n,
                out@.len() == i,
                forall|t: int|
                    0 <= t < i ==> out@[t]@ == ((props@[t]@.value, props@[t]@.params)),
            decreases n - i,
        {
            out.push(FullName::from_prop(vec_index(&props, i)));
            i = i + 1;
        }
        proof {
            assert forall|t: int| 0 <= t < n implies props.deep_view()[t] == props@[t]@ by {}
        }
        out
    }

    /// All `ORG` properties, wrapped, in encounter order.
    pub fn org(&self) -> (r: Vec<Organization>)
        requires
            self.wf(),
        ensures
            ({
                let vs = match map_val(self@.props, "ORG"@) {
                    Some(vs) => vs,
                    None => Seq::<PropModel>::empty(),
                };
                r@.len() == vs.len() && (forall|i: int|
                    0 <= i < vs.len() ==> r@[i]@ == ((vs[i].value, vs[i].params)))
            }),
    {
        let props = self.0.get_all("ORG");
        let n = props.len();
        let mut out: Vec<Organization> = Vec::new();
        let mut i: usize = 0;
        while i < n
            invariant
                n == props@.len(),
                props.deep_view() == (match map_val(self@.props, "ORG"@) {
                    Some(vs) => vs,
                    None => Seq::<PropModel>::empty(),
                }),
                i <= n,
                out@.len() == i,
                forall|t: int|
                    0 <= t < i ==> out@[t]@ == ((props@[t]@.value, props@[t]@.params)),
            decreases n - i,
        {
            out.push(Organization::from_prop(vec_index(&props, i)));
            i = i + 1;
        }
        proof {
            assert forall|t: int| 0 <= t < n implies props.deep_view()[t] == props@[t]@ by {}
        }
        out
    }

    /// All `TITLE` properties, wrapped, in encounter order.
    pub fn title(&self) -> (r: Vec<Title>)
        requires
            self.wf(),
        ensures
            ({
                let vs = match map_val(self@.props, "TITLE"@) {
                    Some(vs) => vs,
                    None => Seq::<PropModel>::empty(),
                };
                r@.len() == vs.len() && (forall|i: int|
                    0 <= i < vs.len() ==> r@[i]@ == ((vs[i].value, vs[i].params)))
            }),
    {
        let props = self.0.get_all("TITLE");
        let n = props.len();
        let mut out: Vec<Title> = Vec::new();
        let mut i: usize = 0;
        while i < n
            invariant
                n == props@.len(),
                props.deep_view() == (match map_val(self@.props, "TITLE"@) {
                    Some(vs) => vs,
                    None => Seq::<PropModel>::empty(),
                }),
                i <= n,
                out@.len() == i,
                forall|t: int|
                    0 <= t < i ==> out@[t]@ == ((props@[t]@.value, props@[t]@.params)),
            decreases n - i,
        {
            out.push(Title::from_prop(vec_index(&props, i)));
            i = i + 1;
        }
        proof {
            assert forall|t: int| 0 <= t < n implies props.deep_view()[t] == props@[t]@ by {}
        }
        out
    }

    /// The `N` property, wrapped, if there is exactly one.
    pub fn name(&self) -> (r: Option<Name>)
        requires
            self.wf(),
        ensures
            match map_val(self@.props, "N"@) {
                Some(vs) => {
                    if vs.len() == 1 {
                        r matches Some(x) && x@ == ((vs[0].value, vs[0].params))
                    } else {
                        r is None
                    }
                },
                None => r is None,
            },
    {
        match self.0.get_only("N") {
            Some(p) => Some(Name::from_prop(p)),
            None => None,
        }
    }

    /// Chainable: appends a `FN` property with the given value.
    pub fn with_fullname(self, fullname: String) -> (r: Vcard)
        requires
            self.wf(),
        ensures
            r.wf(),
            r@.name == self@.name,
            r@.subs == self@.subs,
            r@.props == props_push(
                self@.props,
                (PropModel {
                    group: None,
                    name: "FN"@,
                    params: Seq::empty(),
                    value: fullname@,
                }),
            ),
    {
        let p = Property {
            name: "FN".to_owned(),
            params: StrMap::new(),
            raw_value: fullname,
            prop_group: None,
        };
        proof {
            assert(p@.params =~= Seq::<(Seq<char>, Seq<char>)>::empty());
        }
        let mut this = self;
        this.0.push(p);
        this
    }

    /// Chainable: appends a `TITLE` property with the given value.
    pub fn with_title(self, title: String) -> (r: Vcard)
        requires
            self.wf(),
        ensures
            r.wf(),
            r@.name == self@.name,
            r@.subs == self@.subs,
            r@.props == props_push(
                self@.props,
                (PropModel {
                    group: None,
                    name: "TITLE"@,
                    params: Seq::empty(),
                    value: title@,
                }),
            ),
    {
        let p = Property {
            name: "TITLE".to_owned(),
            params: StrMap::new(),
            raw_value: title,
            prop_group: None,
        };
        proof {
            assert(p@.params =~= Seq::<(Seq<char>, Seq<char>)>::empty());
        }
        let mut this = self;
        this.0.push(p);
        this
    }

    /// Chainable: appends an `EMAIL` property with the given value.
    pub fn with_email(self, email: String) -> (r: Vcard)
        requires
            self.wf(),
        ensures
            r.wf(),
            r@.name == self@.name,
            r@.subs == self@.subs,
            r@.props == props_push(
                self@.props,
                (PropModel {
                    group: None,
                    name: "EMAIL"@,
                    params: Seq::empty(),
                    value: email@,
                }),
            ),
    {
        let p = Property {
            name: "EMAIL".to_owned(),
            params: StrMap::new(),
            raw_value: email,
            prop_group: None,
        };
        proof {
            assert(p@.params =~= Seq::<(Seq<char>, Seq<char>)>::empty());
        }
        let mut this = self;
        this.0.push(p);
        this
    }

    /// Chainable: appends a `REV` property with the given value.
    pub fn with_rev(self, timestamp: String) -> (r: Vcard)
        requires
            self.wf(),
        ensures
            r.wf(),
            r@.name == self@.name,
            r@.subs == self@.subs,
            r@.props == props_push(
                self@.props,
                (PropModel {
                    group: None,
                    name: "REV"@,
                    params: Seq::empty(),
                    value: timestamp@,
                }),
            ),
    {
        let p = Property {
            name: "REV".to_owned(),
            params: StrMap::new(),
            raw_value: timestamp,
            prop_group: None,
        };
        proof {
            assert(p@.params =~= Seq::<(Seq<char>, Seq<char>)>::empty());
        }
        let mut this = self;
        this.0.push(p);
        this
    }

    /// Chainable: appends a `TEL` property with the given parameters and
    /// value.
    pub fn with_tel(self, params: Params, value: String) -> (r: Vcard)
        requires
            self.wf(),
        ensures
            r.wf(),
            r@.name == self@.name,
            r@.subs == self@.subs,
            r@.props == props_push(
                self@.props,
                (PropModel { group: None, name: "TEL"@, params: params@, value: value@ }),
            ),
    {
        let p = Property {
            name: "TEL".to_owned(),
            params,
            raw_value: value,
            prop_group: None,
        };
        let mut this = self;
        this.0.push(p);
        this
    }

    /// Chainable: appends an `ORG` property joining the given organization
    /// path with `;`.
    pub fn with_org(self, org: Vec<String>) -> (r: Vcard)
        requires
            self.wf(),
        ensures
            r.wf(),
            r@.name == self@.name,
            r@.subs == self@.subs,
            r@.props == props_push(
                self@.props,
                (PropModel {
                    group: None,
                    name: "ORG"@,
                    params: Seq::empty(),
                    value: join_semi(org.deep_view()),
                }),
            ),
    {
        let n = org.len();
        let mut raw = String::new();
        let mut i: usize = 0;
        proof {
            assert(org.deep_view().take(0).len() == 0);
            assert(raw@ =~= join_semi(org.deep_view().take(0)));
        }
        while i < n
            invariant
                n == org@.len(),
                i <= n,
                raw@ == join_semi(org.deep_view().take(i as int)),
            decreases n - i,
        {
            if i > 0 {
                push_char(&mut raw, ';');
            }
            raw.append(vec_index(&org, i).as_str());
            proof {
                assert(org.deep_view()[i as int] == org@[i as int]@);
                lemma_join_semi_snoc(org.deep_view(), i as int);
            }
            i = i + 1;
        }
        proof {
            assert(org.deep_view().take(n as int) =~= org.deep_view());
        }
        let p = Property {
            name: "ORG".to_owned(),
            params: StrMap::new(),
            raw_value: raw,
            prop_group: None,
        };
        proof {
            assert(p@.params =~= Seq::<(Seq<char>, Seq<char>)>::empty());
        }
        let mut this = self;
        this.0.push(p);
        this
    }

    /// Chainable: appends an `N` property from its five `;`-joined fields.
    pub fn with_name(
        self,
        params: Params,
        surname: Option<String>,
        given_name: Option<String>,
        additional_name: Option<String>,
        honorific_prefixes: Option<String>,
        honorific_suffixes: Option<String>,
    ) -> (r: Vcard)
        requires
            self.wf(),
        ensures
            r.wf(),
            r@.name == self@.name,
            r@.subs == self@.subs,
            r@.props == props_push(
                self@.props,
                (PropModel {
                    group: None,
                    name: "N"@,
                    params: params@,
                    value: opt_text(surname) + seq![';'] + opt_text(given_name) + seq![';']
                        + opt_text(additional_name) + seq![';'] + opt_text(honorific_prefixes)
                        + seq![';'] + opt_text(honorific_suffixes),
                }),
            ),
    {
        let ghost total = opt_text(surname) + seq![';'] + opt_text(given_name) + seq![';']
            + opt_text(additional_name) + seq![';'] + opt_text(honorific_prefixes) + seq![';']
            + opt_text(honorific_suffixes);
        let mut raw = match surname {
            Some(x) => x,
            None => String::new(),
        };
        push_char(&mut raw, ';');
        match given_name {
            Some(x) => raw.append(x.as_str()),
            None => {}
        }
        push_char(&mut raw, ';');
        match additional_name {
            Some(x) => raw.append(x.as_str()),
            None => {}
        }
        push_char(&mut raw, ';');
        match honorific_prefixes {
            Some(x) => raw.append(x.as_str()),
            None => {}
        }
        push_char(&mut raw, ';');
        match honorific_suffixes {
            Some(x) => raw.append(x.as_str()),
            None => {}
        }
        proof {
            assert(raw@ =~= total);
        }
        let p = Property { name: "N".to_owned(), params, raw_value: raw, prop_group: None };
        let mut this = self;
        this.0.push(p);
        this
    }

    /// Chainable: appends an `ADR` property from its seven `;`-joined
    /// fields.
    pub fn with_adr(
        self,
        params: Params,
        pobox: Option<String>,
        ext: Option<String>,
        street: Option<String>,
        locality: Option<String>,
        region: Option<String>,
        code: Option<String>,
        country: Option<String>,
    ) -> (r: Vcard)
        requires
            self.wf(),
        ensures
            r.wf(),
            r@.name == self@.name,
            r@.subs == self@.subs,
            r@.props == props_push(
                self@.props,
                (PropModel {
                    group: None,
                    name: "ADR"@,
                    params: params@,
                    value: adr_text(pobox, ext, street, locality, region, code, country),
                }),
            ),
    {
        let ghost mut acc: Seq<char> = opt_text(pobox);
        let mut raw = match pobox {
            Some(x) => x,
            None => String::new(),
        };
        proof {
            assert(raw@ =~= acc);
        }
        push_char(&mut raw, ';');
        proof {
            acc = acc + seq![';'];
            assert(raw@ =~= acc);
        }
        match ext {
            Some(x) => raw.append(x.as_str()),
            None => {}
        }
        proof {
            acc = acc + opt_text(ext);
            assert(raw@ =~= acc);
        }
        push_char(&mut raw, ';');
        proof {
            acc = acc + seq![';'];
            assert(raw@ =~= acc);
        }
        match street {
            Some(x) => raw.append(x.as_str()),
            None => {}
        }
        proof {
            acc = acc + opt_text(street);
            assert(raw@ =~= acc);
        }
        push_char(&mut raw, ';');
        proof {
            acc = acc + seq![';'];
            assert(raw@ =~= acc);
        }
        match locality {
            Some(x) => raw.append(x.as_str()),
            None => {}
        }
        proof {
            acc = acc + opt_text(locality);
            assert(raw@ =~= acc);
        }
        push_char(&mut raw, ';');
        proof {
            acc = acc + seq![';'];
            assert(raw@ =~= acc);
        }
        match region {
            Some(x) => raw.append(x.as_str()),
            None => {}
        }
        proof {
            acc = acc + opt_text(region);
            assert(raw@ =~= acc);
        }
        push_char(&mut raw, ';');
        proof {
            acc = acc + seq![';'];
            assert(raw@ =~= acc);
        }
        match code {
            Some(x) => raw.append(x.as_str()),
            None => {}
        }
        proof {
            acc = acc + opt_text(code);
            assert(raw@ =~= acc);
        }
        push_char(&mut raw, ';');
        proof {
            acc = acc + seq![';'];
            assert(raw@ =~= acc);
        }
        match country {
            Some(x) => raw.append(x.as_str()),
            None => {}
        }
        proof {
            acc = acc + opt_text(country);
            assert(raw@ =~= acc);
            assert(acc == adr_text(pobox, ext, street, locality, region, code, country));
        }
        let p = Property { name: "ADR".to_owned(), params, raw_value: raw, prop_group: None };
        let mut this = self;
        this.0.push(p);
        this
    }

    /// All `CATEGORIES` properties, wrapped, in encounter order.
    pub fn categories(&self) -> (r: Vec<Category>)
        requires
            self.wf(),
        ensures
            ({
                let vs = match map_val(self@.props, "CATEGORIES"@) {
                    Some(vs) => vs,
                    None => Seq::<PropModel>::empty(),
                };
                r@.len() == vs.len() && (forall|i: int|
                    0 <= i < vs.len() ==> r@[i]@ == ((vs[i].value, vs[i].params)))
            }),
    {
        let props = self.0.get_all("CATEGORIES");
        let n = props.len();
        let mut out: Vec<Category> = Vec::new();
        let mut i: usize = 0;
        while i < n
            invariant
                n == props@.len(),
                props.deep_view() == (match map_val(self@.props, "CATEGORIES"@) {
                    Some(vs) => vs,
                    None => Seq::<PropModel>::empty(),
                }),
                i <= n,
                out@.len() == i,
                forall|t: int|
                    0 <= t < i ==> out@[t]@ == ((props@[t]@.value, props@[t]@.params)),
            decreases n - i,
        {
            out.push(Category::from_prop(vec_index(&props, i)));
            i = i + 1;
        }
        proof {
            assert forall|t: int| 0 <= t < n implies props.deep_view()[t] == props@[t]@ by {}
        }
        out
    }

    /// All `EMAIL` properties, wrapped, in encounter order.
    pub fn email(&self) -> (r: Vec<Email>)
        requires
            self.wf(),
        ensures
            ({
                let vs = match map_val(self@.props, "EMAIL"@) {
                    Some(vs) => vs,
                    None => Seq::<PropModel>::empty(),
                };
                r@.len() == vs.len() && (forall|i: int|
                    0 <= i < vs.len() ==> r@[i]@ == ((vs[i].value, vs[i].params)))
            }),
    {
        let props = self.0.get_all("EMAIL");
        let n = props.len();
        let mut out: Vec<Email> = Vec::new();
        let mut i: usize = 0;
        while i < n
            invariant
                n == props@.len(),
                props.deep_view() == (match map_val(self@.props, "EMAIL"@) {
                    Some(vs) => vs,
                    None => Seq::<PropModel>::empty(),
                }),
                i <= n,
                out@.len() == i,
                forall|t: int|
                    0 <= t < i ==> out@[t]@ == ((props@[t]@.value, props@[t]@.params)),
            decreases n - i,
        {
            out.push(Email::from_prop(vec_index(&props, i)));
            i = i + 1;
        }
        proof {
            assert forall|t: int| 0 <= t < n implies props.deep_view()[t] == props@[t]@ by {}
        }
        out
    }

    /// All `GEO` properties, wrapped, in encounter order.
    pub fn geo(&self) -> (r: Vec<Geo>)
        requires
            self.wf(),
        ensures
            ({
                let vs = match map_val(self@.props, "GEO"@) {
                    Some(vs) => vs,
                    None => Seq::<PropModel>::empty(),
                };
                r@.len() == vs.len() && (forall|i: int|
                    0 <= i < vs.len() ==> r@[i]@ == ((vs[i].value, vs[i].params)))
            }),
    {
        let props = self.0.get_all("GEO");
        let n = props.len();
        let mut out: Vec<Geo> = Vec::new();
        let mut i: usize = 0;
        while i < n
            invariant
                n == props@.len(),
                props.deep_view() == (match map_val(self@.props, "GEO"@) {
                    Some(vs) => vs,
                    None => Seq::<PropModel>::empty(),
                }),
                i <= n,
                out@.len() == i,
                forall|t: int|
                    0 <= t < i ==> out@[t]@ == ((props@[t]@.value, props@[t]@.params)),
            decreases n - i,
        {
            out.push(Geo::from_prop(vec_index(&props, i)));
            i = i + 1;
        }
        proof {
            assert forall|t: int| 0 <= t < n implies props.deep_view()[t] == props@[t]@ by {}
        }
        out
    }

    /// All `IMPP` properties, wrapped, in encounter order.
    pub fn impp(&self) -> (r: Vec<IMPP>)
        requires
            self.wf(),
        ensures
            ({
                let vs = match map_val(self@.props, "IMPP"@) {
                    Some(vs) => vs,
                    None => Seq::<PropModel>::empty(),
                };
                r@.len() == vs.len() && (forall|i: int|
                    0 <= i < vs.len() ==> r@[i]@ == ((vs[i].value, vs[i].params)))
            }),
    {
        let props = self.0.get_all("IMPP");
        let n = props.len();
        let mut out: Vec<IMPP> = Vec::new();
        let mut i: usize = 0;
        while i < n
            invariant
                n == props@.len(),
                props.deep_view() == (match map_val(self@.props, "IMPP"@) {
                    Some(vs) => vs,
                    None => Seq::<PropModel>::empty(),
                }),
                i <= n,
                out@.len() == i,
                forall|t: int|
                    0 <= t < i ==> out@[t]@ == ((props@[t]@.value, props@[t]@.params)),
            decreases n - i,
        {
            out.push(IMPP::from_prop(vec_index(&props, i)));
            i = i + 1;
        }
        proof {
            assert forall|t: int| 0 <= t < n implies props.deep_view()[t] == props@[t]@ by {}
        }
        out
    }

    /// All `KEY` properties, wrapped, in encounter order.
    pub fn key(&self) -> (r: Vec<Key>)
        requires
            self.wf(),
        ensures
            ({
                let vs = match map_val(self@.props, "KEY"@) {
                    Some(vs) => vs,
                    None => Seq::<PropModel>::empty(),
                };
                r@.len() == vs.len() && (forall|i: int|
                    0 <= i < vs.len() ==> r@[i]@ == ((vs[i].value, vs[i].params)))
            }),
    {
        let props = self.0.get_all("KEY");
        let n = props.len();
        let mut out: Vec<Key> = Vec::new();
        let mut i: usize = 0;
        while i < n
            invariant
                n == props@.len(),
                props.deep_view() == (match map_val(self@.props, "KEY"@) {
                    Some(vs) => vs,
                    None => Seq::<PropModel>::empty(),
                }),
                i <= n,
                out@.len() == i,
                forall|t: int|
                    0 <= t < i ==> out@[t]@ == ((props@[t]@.value, props@[t]@.params)),
            decreases n - i,
        {
            out.push(Key::from_prop(vec_index(&props, i)));
            i = i + 1;
        }
        proof {
            assert forall|t: int| 0 <= t < n implies props.deep_view()[t] == props@[t]@ by {}
        }
        out
    }

    /// All `LANG` properties, wrapped, in encounter order.
    pub fn lang(&self) -> (r: Vec<Lang>)
        requires
            self.wf(),
        ensures
            ({
                let vs = match map_val(self@.props, "LANG"@) {
                    Some(vs) => vs,
                    None => Seq::<PropModel>::empty(),
                };
                r@.len() == vs.len() && (forall|i: int|
                    0 <= i < vs.len() ==> r@[i]@ == ((vs[i].value, vs[i].params)))
            }),
    {
        let props = self.0.get_all("LANG");
        let n = props.len();
        let mut out: Vec<Lang> = Vec::new();
        let mut i: usize = 0;
        while i < n
            invariant
                n == props@.len(),
                props.deep_view() == (match map_val(self@.props, "LANG"@) {
                    Some(vs) => vs,
                    None => Seq::<PropModel>::empty(),
                }),
                i <= n,
                out@.len() == i,
                forall|t: int|
                    0 <= t < i ==> out@[t]@ == ((props@[t]@.value, props@[t]@.params)),
            decreases n - i,
        {
            out.push(Lang::from_prop(vec_index(&props, i)));
            i = i + 1;
        }
        proof {
            assert forall|t: int| 0 <= t < n implies props.deep_view()[t] == props@[t]@ by {}
        }
        out
    }

    /// All `LOGO` properties, wrapped, in encounter order.
    pub fn logo(&self) -> (r: Vec<Logo>)
        requires
            self.wf(),
        ensures
            ({
                let vs = match map_val(self@.props, "LOGO"@) {
                    Some(vs) => vs,
                    None => Seq::<PropModel>::empty(),
                };
                r@.len() == vs.len() && (forall|i: int|
                    0 <= i < vs.len() ==> r@[i]@ == ((vs[i].value, vs[i].params)))
            }),
    {
        let props = self.0.get_all("LOGO");
        let n = props.len();
        let mut out: Vec<Logo> = Vec::new();
        let mut i: usize = 0;
        while i < n
            invariant
                n == props@.len(),
                props.deep_view() == (match map_val(self@.props, "LOGO"@) {
                    Some(vs) => vs,
                    None => Seq::<PropModel>::empty(),
                }),
                i <= n,
                out@.len() == i,
                forall|t: int|
                    0 <= t < i ==> out@[t]@ == ((props@[t]@.value, props@[t]@.params)),
            decreases n - i,
        {
            out.push(Logo::from_prop(vec_index(&props, i)));
            i = i + 1;
        }
        proof {
            assert forall|t: int| 0 <= t < n implies props.deep_view()[t] == props@[t]@ by {}
        }
        out
    }

    /// All `MEMBER` properties, wrapped, in encounter order.
    pub fn member(&self) -> (r: Vec<Member>)
        requires
            self.wf(),
        ensures
            ({
                let vs = match map_val(self@.props, "MEMBER"@) {
                    Some(vs) => vs,
                    None => Seq::<PropModel>::empty(),
                };
                r@.len() == vs.len() && (forall|i: int|
                    0 <= i < vs.len() ==> r@[i]@ == ((vs[i].value, vs[i].params)))
            }),
    {
        let props = self.0.get_all("MEMBER");
        let n = props.len();
        let mut out: Vec<Member> = Vec::new();
        let mut i: usize = 0;
        while i < n
            invariant
                n == props@.len(),
                props.deep_view() == (match map_val(self@.props, "MEMBER"@) {
                    Some(vs) => vs,
                    None => Seq::<PropModel>::empty(),
                }),
                i <= n,
                out@.len() == i,
                forall|t: int|
                    0 <= t < i ==> out@[t]@ == ((props@[t]@.value, props@[t]@.params)),
            decreases n - i,
        {
            out.push(Member::from_prop(vec_index(&props, i)));
            i = i + 1;
        }
        proof {
            assert forall|t: int| 0 <= t < n implies props.deep_view()[t] == props@[t]@ by {}
        }
        out
    }

    /// All `NICKNAME` properties, wrapped, in encounter order.
    pub fn nickname(&self) -> (r: Vec<NickName>)
        requires
            self.wf(),
        ensures
            ({
                let vs = match map_val(self@.props, "NICKNAME"@) {
                    Some(vs) => vs,
                    None => Seq::<PropModel>::empty(),
                };
                r@.len() == vs.len() && (forall|i: int|
                    0 <= i < vs.len() ==> r@[i]@ == ((vs[i].value, vs[i].params)))
            }),
    {
        let props = self.0.get_all("NICKNAME");
        let n = props.len();
        let mut out: Vec<NickName> = Vec::new();
        let mut i: usize = 0;
        while i < n
            invariant
                n == props@.len(),
                props.deep_view() == (match map_val(self@.props, "NICKNAME"@) {
                    Some(vs) => vs,
                    None => Seq::<PropModel>::empty(),
                }),
                i <= n,
                out@.len() == i,
                forall|t: int|
                    0 <= t < i ==> out@[t]@ == ((props@[t]@.value, props@[t]@.params)),
            decreases n - i,
        {
            out.push(NickName::from_prop(vec_index(&props, i)));
            i = i + 1;
        }
        proof {
            assert forall|t: int| 0 <= t < n implies props.deep_view()[t] == props@[t]@ by {}
        }
        out
    }

    /// All `NOTE` properties, wrapped, in encounter order.
    pub fn note(&self) -> (r: Vec<Note>)
        requires
            self.wf(),
        ensures
            ({
                let vs = match map_val(self@.props, "NOTE"@) {
                    Some(vs) => vs,
                    None => Seq::<PropModel>::empty(),
                };
                r@.len() == vs.len() && (forall|i: int|
                    0 <= i < vs.len() ==> r@[i]@ == ((vs[i].value, vs[i].params)))
            }),
    {
        let props = self.0.get_all("NOTE");
        let n = props.len();
        let mut out: Vec<Note> = Vec::new();
        let mut i: usize = 0;
        while i < n
            invariant
                n == props@.len(),
                props.deep_view() == (match map_val(self@.props, "NOTE"@) {
                    Some(vs) => vs,
                    None => Seq::<PropModel>::empty(),
                }),
                i <= n,
                out@.len() == i,
                forall|t: int|
                    0 <= t < i ==> out@[t]@ == ((props@[t]@.value, props@[t]@.params)),
            decreases n - i,
        {
            out.push(Note::from_prop(vec_index(&props, i)));
            i = i + 1;
        }
        proof {
            assert forall|t: int| 0 <= t < n implies props.deep_view()[t] == props@[t]@ by {}
        }
        out
    }

    /// All `PHOTO` properties, wrapped, in encounter order.
    pub fn photo(&self) -> (r: Vec<Photo>)
        requires
            self.wf(),
        ensures
            ({
                let vs = match map_val(self@.props, "PHOTO"@) {
                    Some(vs) => vs,
                    None => Seq::<PropModel>::empty(),
                };
                r@.len() == vs.len() && (forall|i: int|
                    0 <= i < vs.len() ==> r@[i]@ == ((vs[i].value, vs[i].params)))
            }),
    {
        let props = self.0.get_all("PHOTO");
        let n = props.len();
        let mut out: Vec<Photo> = Vec::new();
        let mut i: usize = 0;
        while i < n
            invariant
                n == props@.len(),
                props.deep_view() == (match map_val(self@.props, "PHOTO"@) {
                    Some(vs) => vs,
                    None => Seq::<PropModel>::empty(),
                }),
                i <= n,
                out@.len() == i,
                forall|t: int|
                    0 <= t < i ==> out@[t]@ == ((props@[t]@.value, props@[t]@.params)),
            decreases n - i,
        {
            out.push(Photo::from_prop(vec_index(&props, i)));
            i = i + 1;
        }
        proof {
            assert forall|t: int| 0 <= t < n implies props.deep_view()[t] == props@[t]@ by {}
        }
        out
    }

    /// All `RELATED` properties, wrapped, in encounter order.
    pub fn related(&self) -> (r: Vec<Related>)
        requires
            self.wf(),
        ensures
            ({
                let vs = match map_val(self@.props, "RELATED"@) {
                    Some(vs) => vs,
                    None => Seq::<PropModel>::empty(),
                };
                r@.len() == vs.len() && (forall|i: int|
                    0 <= i < vs.len() ==> r@[i]@ == ((vs[i].value, vs[i].params)))
            }),
    {
        let props = self.0.get_all("RELATED");
        let n = props.len();
        let mut out: Vec<Related> = Vec::new();
        let mut i: usize = 0;
        while i < n
            invariant
                n == props@.len(),
                props.deep_view() == (match map_val(self@.props, "RELATED"@) {
                    Some(vs) => vs,
                    None => Seq::<PropModel>::empty(),
                }),
                i <= n,
                out@.len() == i,
                forall|t: int|
                    0 <= t < i ==> out@[t]@ == ((props@[t]@.value, props@[t]@.params)),
            decreases n - i,
        {
            out.push(Related::from_prop(vec_index(&props, i)));
            i = i + 1;
        }
        proof {
            assert forall|t: int| 0 <= t < n implies props.deep_view()[t] == props@[t]@ by {}
        }
        out
    }

    /// All `ROLE` properties, wrapped, in encounter order.
    pub fn role(&self) -> (r: Vec<Title>)
        requires
            self.wf(),
        ensures
            ({
                let vs = match map_val(self@.props, "ROLE"@) {
                    Some(vs) => vs,
                    None => Seq::<PropModel>::empty(),
                };
                r@.len() == vs.len() && (forall|i: int|
                    0 <= i < vs.len() ==> r@[i]@ == ((vs[i].value, vs[i].params)))
            }),
    {
        let props = self.0.get_all("ROLE");
        let n = props.len();
        let mut out: Vec<Title> = Vec::new();
        let mut i: usize = 0;
        while i < n
            invariant
                n == props@.len(),
                props.deep_view() == (match map_val(self@.props, "ROLE"@) {
                    Some(vs) => vs,
                    None => Seq::<PropModel>::empty(),
                }),
                i <= n,
                out@.len() == i,
                forall|t: int|
                    0 <= t < i ==> out@[t]@ == ((props@[t]@.value, props@[t]@.params)),
            decreases n - i,
        {
            out.push(Title::from_prop(vec_index(&props, i)));
            i = i + 1;
        }
        proof {
            assert forall|t: int| 0 <= t < n implies props.deep_view()[t] == props@[t]@ by {}
        }
        out
    }

    /// All `SOUND` properties, wrapped, in encounter order.
    pub fn sound(&self) -> (r: Vec<Sound>)
        requires
            self.wf(),
        ensures
            ({
                let vs = match map_val(self@.props, "SOUND"@) {
                    Some(vs) => vs,
                    None => Seq::<PropModel>::empty(),
                };
                r@.len() == vs.len() && (forall|i: int|
                    0 <= i < vs.len() ==> r@[i]@ == ((vs[i].value, vs[i].params)))
            }),
    {
        let props = self.0.get_all("SOUND");
        let n = props.len();
        let mut out: Vec<Sound> = Vec::new();
        let mut i: usize = 0;
        while i < n
            invariant
                n == props@.len(),
                props.deep_view() == (match map_val(self@.props, "SOUND"@) {
                    Some(vs) => vs,
                    None => Seq::<PropModel>::empty(),
                }),
                i <= n,
                out@.len() == i,
                forall|t: int|
                    0 <= t < i ==> out@[t]@ == ((props@[t]@.value, props@[t]@.params)),
            decreases n - i,
        {
            out.push(Sound::from_prop(vec_index(&props, i)));
            i = i + 1;
        }
        proof {
            assert forall|t: int| 0 <= t < n implies props.deep_view()[t] == props@[t]@ by {}
        }
        out
    }

    /// All `TEL` properties, wrapped, in encounter order.
    pub fn tel(&self) -> (r: Vec<Tel>)
        requires
            self.wf(),
        ensures
            ({
                let vs = match map_val(self@.props, "TEL"@) {
                    Some(vs) => vs,
                    None => Seq::<PropModel>::empty(),
                };
                r@.len() == vs.len() && (forall|i: int|
                    0 <= i < vs.len() ==> r@[i]@ == ((vs[i].value, vs[i].params)))
            }),
    {
        let props = self.0.get_all("TEL");
        let n = props.len();
        let mut out: Vec<Tel> = Vec::new();
        let mut i: usize = 0;
        while i < n
            invariant
                n == props@.len(),
                props.deep_view() == (match map_val(self@.props, "TEL"@) {
                    Some(vs) => vs,
                    None => Seq::<PropModel>::empty(),
                }),
                i <= n,
                out@.len() == i,
                forall|t: int|
                    0 <= t < i ==> out@[t]@ == ((props@[t]@.value, props@[t]@.params)),
            decreases n - i,
        {
            out.push(Tel::from_prop(vec_index(&props, i)));
            i = i + 1;
        }
        proof {
            assert forall|t: int| 0 <= t < n implies props.deep_view()[t] == props@[t]@ by {}
        }
        out
    }

    /// All `TZ` properties, wrapped, in encounter order.
    pub fn tz(&self) -> (r: Vec<Tz>)
        requires
            self.wf(),
        ensures
            ({
                let vs = match map_val(self@.props, "TZ"@) {
                    Some(vs) => vs,
                    None => Seq::<PropModel>::empty(),
                };
                r@.len() == vs.len() && (forall|i: int|
                    0 <= i < vs.len() ==> r@[i]@ == ((vs[i].value, vs[i].params)))
            }),
    {
        let props = self.0.get_all("TZ");
        let n = props.len();
        let mut out: Vec<Tz> = Vec::new();
        let mut i: usize = 0;
        while i < n
            invariant
                n == props@.len(),
                props.deep_view() == (match map_val(self@.props, "TZ"@) {
                    Some(vs) => vs,
                    None => Seq::<PropModel>::empty(),
                }),
                i <= n,
                out@.len() == i,
                forall|t: int|
                    0 <= t < i ==> out@[t]@ == ((props@[t]@.value, props@[t]@.params)),
            decreases n - i,
        {
            out.push(Tz::from_prop(vec_index(&props, i)));
            i = i + 1;
        }
        proof {
            assert forall|t: int| 0 <= t < n implies props.deep_view()[t] == props@[t]@ by {}
        }
        out
    }

    /// All `URL` properties, wrapped, in encounter order.
    pub fn url(&self) -> (r: Vec<Url>)
        requires
            self.wf(),
        ensures
            ({
                let vs = match map_val(self@.props, "URL"@) {
                    Some(vs) => vs,
                    None => Seq::<PropModel>::empty(),
                };
                r@.len() == vs.len() && (forall|i: int|
                    0 <= i < vs.len() ==> r@[i]@ == ((vs[i].value, vs[i].params)))
            }),
    {
        let props = self.0.get_all("URL");
        let n = props.len();
        let mut out: Vec<Url> = Vec::new();
        let mut i: usize = 0;
        while i < n
            invariant
                n == props@.len(),
                props.deep_view() == (match map_val(self@.props, "URL"@) {
                    Some(vs) => vs,
                    None => Seq::<PropModel>::empty(),
                }),
                i <= n,
                out@.len() == i,
                forall|t: int|
                    0 <= t < i ==> out@[t]@ == ((props@[t]@.value, props@[t]@.params)),
            decreases n - i,
        {
            out.push(Url::from_prop(vec_index(&props, i)));
            i = i + 1;
        }
        proof {
            assert forall|t: int| 0 <= t < n implies props.deep_view()[t] == props@[t]@ by {}
        }
        out
    }

    /// The `ANNIVERSARY` property, wrapped, if there is exactly one.
    pub fn anniversary(&self) -> (r: Option<Anniversary>)
        requires
            self.wf(),
        ensures
            match map_val(self@.props, "ANNIVERSARY"@) {
                Some(vs) => {
                    if vs.len() == 1 {
                        r matches Some(x) && x@ == ((vs[0].value, vs[0].params))
                    } else {
                        r is None
                    }
                },
                None => r is None,
            },
    {
        match self.0.get_only("ANNIVERSARY") {
            Some(p) => Some(Anniversary::from_prop(p)),
            None => None,
        }
    }

    /// The `BDAY` property, wrapped, if there is exactly one.
    pub fn bday(&self) -> (r: Option<BDay>)
        requires
            self.wf(),
        ensures
            match map_val(self@.props, "BDAY"@) {
                Some(vs) => {
                    if vs.len() == 1 {
                        r matches Some(x) && x@ == ((vs[0].value, vs[0].params))
                    } else {
                        r is None
                    }
                },
                None => r is None,
            },
    {
        match self.0.get_only("BDAY") {
            Some(p) => Some(BDay::from_prop(p)),
            None => None,
        }
    }

    /// The `CLIENTPIDMAP` property, wrapped, if there is exactly one.
    pub fn clientpidmap(&self) -> (r: Option<ClientPidMap>)
        requires
            self.wf(),
        ensures
            match map_val(self@.props, "CLIENTPIDMAP"@) {
                Some(vs) => {
                    if vs.len() == 1 {
                        r matches Some(x) && x@ == ((vs[0].value, vs[0].params))
                    } else {
                        r is None
                    }
                },
                None => r is None,
            },
    {
        match self.0.get_only("CLIENTPIDMAP") {
            Some(p) => Some(ClientPidMap::from_prop(p)),
            None => None,
        }
    }

    /// The `GENDER` property, wrapped, if there is exactly one.
    pub fn gender(&self) -> (r: Option<Gender>)
        requires
            self.wf(),
        ensures
            match map_val(self@.props, "GENDER"@) {
                Some(vs) => {
                    if vs.len() == 1 {
                        r matches Some(x) && x@ == ((vs[0].value, vs[0].params))
                    } else {
                        r is None
                    }
                },
                None => r is None,
            },
    {
        match self.0.get_only("GENDER") {
            Some(p) => Some(Gender::from_prop(p)),
            None => None,
        }
    }

    /// The `PRIOD` property, wrapped, if there is exactly one.
    pub fn proid(&self) -> (r: Option<Proid>)
        requires
            self.wf(),
        ensures
            match map_val(self@.props, "PRIOD"@) {
                Some(vs) => {
                    if vs.len() == 1 {
                        r matches Some(x) && x@ == ((vs[0].value, vs[0].params))
                    } else {
                        r is None
                    }
                },
                None => r is None,
            },
    {
        match self.0.get_only("PRIOD") {
            Some(p) => Some(Proid::from_prop(p)),
            None => None,
        }
    }

    /// The `REV` property, wrapped, if there is exactly one.
    pub fn rev(&self) -> (r: Option<Rev>)
        requires
            self.wf(),
        ensures
            match map_val(self@.props, "REV"@) {
                Some(vs) => {
                    if vs.len() == 1 {
                        r matches Some(x) && x@ == ((vs[0].value, vs[0].params))
                    } else {
                        r is None
                    }
                },
                None => r is None,
            },
    {
        match self.0.get_only("REV") {
            Some(p) => Some(Rev::from_prop(p)),
            None => None,
        }
    }

    /// The `UID` property, wrapped, if there is exactly one.
    pub fn uid(&self) -> (r: Option<Uid>)
        requires
            self.wf(),
        ensures
            match map_val(self@.props, "UID"@) {
                Some(vs) => {
                    if vs.len() == 1 {
                        r matches Some(x) && x@ == ((vs[0].value, vs[0].params))
                    } else {
                        r is None
                    }
                },
                None => r is None,
            },
    {
        match self.0.get_only("UID") {
            Some(p) => Some(Uid::from_prop(p)),
            None => None,
        }
    }

    /// The `VERSION` property, wrapped, if there is exactly one.
    pub fn version(&self) -> (r: Option<Version>)
        requires
            self.wf(),
        ensures
            match map_val(self@.props, "VERSION"@) {
                Some(vs) => {
                    if vs.len() == 1 {
                        r matches Some(x) && x@ == ((vs[0].value, vs[0].params))
                    } else {
                        r is None
                    }
                },
                None => r is None,
            },
    {
        match self.0.get_only("VERSION") {
            Some(p) => Some(Version::from_prop(p)),
            None => None,
        }
    }

    /// Chainable: appends an `ANNIVERSARY` property with the given value.
    pub fn with_anniversary(self, value: String) -> (r: Vcard)
        requires
            self.wf(),
        ensures
            r.wf(),
            r@.name == self@.name,
            r@.subs == self@.subs,
            r@.props == props_push(
                self@.props,
                (PropModel {
                    group: None,
                    name: "ANNIVERSARY"@,
                    params: Seq::empty(),
                    value: value@,
                }),
            ),
    {
        let p = Property {
            name: "ANNIVERSARY".to_owned(),
            params: StrMap::new(),
            raw_value: value,
            prop_group: None,
        };
        proof {
            assert(p@.params =~= Seq::<(Seq<char>, Seq<char>)>::empty());
        }
        let mut this = self;
        this.0.push(p);
        this
    }

    /// Chainable: appends a `CLIENTPIDMAP` property with the given value.
    pub fn with_clientpidmap(self, raw: String) -> (r: Vcard)
        requires
            self.wf(),
        ensures
            r.wf(),
            r@.name == self@.name,
            r@.subs == self@.subs,
            r@.props == props_push(
                self@.props,
                (PropModel {
                    group: None,
                    name: "CLIENTPIDMAP"@,
                    params: Seq::empty(),
                    value: raw@,
                }),
            ),
    {
        let p = Property {
            name: "CLIENTPIDMAP".to_owned(),
            params: StrMap::new(),
            raw_value: raw,
            prop_group: None,
        };
        proof {
            assert(p@.params =~= Seq::<(Seq<char>, Seq<char>)>::empty());
        }
        let mut this = self;
        this.0.push(p);
        this
    }

    /// Chainable: appends a `GEO` property with the given value.
    pub fn with_geo(self, uri: String) -> (r: Vcard)
        requires
            self.wf(),
        ensures
            r.wf(),
            r@.name == self@.name,
            r@.subs == self@.subs,
            r@.props == props_push(
                self@.props,
                (PropModel {
                    group: None,
                    name: "GEO"@,
                    params: Seq::empty(),
                    value: uri@,
                }),
            ),
    {
        let p = Property {
            name: "GEO".to_owned(),
            params: StrMap::new(),
            raw_value: uri,
            prop_group: None,
        };
        proof {
            assert(p@.params =~= Seq::<(Seq<char>, Seq<char>)>::empty());
        }
        let mut this = self;
        this.0.push(p);
        this
    }

    /// Chainable: appends an `IMPP` property with the given value.
    pub fn with_impp(self, uri: String) -> (r: Vcard)
        requires
            self.wf(),
        ensures
            r.wf(),
            r@.name == self@.name,
            r@.subs == self@.subs,
            r@.props == props_push(
                self@.props,
                (PropModel {
                    group: None,
                    name: "IMPP"@,
                    params: Seq::empty(),
                    value: uri@,
                }),
            ),
    {
        let p = Property {
            name: "IMPP".to_owned(),
            params: StrMap::new(),
            raw_value: uri,
            prop_group: None,
        };
        proof {
            assert(p@.params =~= Seq::<(Seq<char>, Seq<char>)>::empty());
        }
        let mut this = self;
        this.0.push(p);
        this
    }

    /// Chainable: appends a `KEY` property with the given value.
    pub fn with_key(self, uri: String) -> (r: Vcard)
        requires
            self.wf(),
        ensures
            r.wf(),
            r@.name == self@.name,
            r@.subs == self@.subs,
            r@.props == props_push(
                self@.props,
                (PropModel {
                    group: None,
                    name: "KEY"@,
                    params: Seq::empty(),
                    value: uri@,
                }),
            ),
    {
        let p = Property {
            name: "KEY".to_owned(),
            params: StrMap::new(),
            raw_value: uri,
            prop_group: None,
        };
        proof {
            assert(p@.params =~= Seq::<(Seq<char>, Seq<char>)>::empty());
        }
        let mut this = self;
        this.0.push(p);
        this
    }

    /// Chainable: appends a `LANG` property with the given value.
    pub fn with_lang(self, lang: String) -> (r: Vcard)
        requires
            self.wf(),
        ensures
            r.wf(),
            r@.name == self@.name,
            r@.subs == self@.subs,
            r@.props == props_push(
                self@.props,
                (PropModel {
                    group: None,
                    name: "LANG"@,
                    params: Seq::empty(),
                    value: lang@,
                }),
            ),
    {
        let p = Property {
            name: "LANG".to_owned(),
            params: StrMap::new(),
            raw_value: lang,
            prop_group: None,
        };
        proof {
            assert(p@.params =~= Seq::<(Seq<char>, Seq<char>)>::empty());
        }
        let mut this = self;
        this.0.push(p);
        this
    }

    /// Chainable: appends a `LOGO` property with the given value.
    pub fn with_logo(self, uri: String) -> (r: Vcard)
        requires
            self.wf(),
        ensures
            r.wf(),
            r@.name == self@.name,
            r@.subs == self@.subs,
            r@.props == props_push(
                self@.props,
                (PropModel {
                    group: None,
                    name: "LOGO"@,
                    params: Seq::empty(),
                    value: uri@,
                }),
            ),
    {
        let p = Property {
            name: "LOGO".to_owned(),
            params: StrMap::new(),
            raw_value: uri,
            prop_group: None,
        };
        proof {
            assert(p@.params =~= Seq::<(Seq<char>, Seq<char>)>::empty());
        }
        let mut this = self;
        this.0.push(p);
        this
    }

    /// Chainable: appends a `MEMBER` property with the given value.
    pub fn with_member(self, uri: String) -> (r: Vcard)
        requires
            self.wf(),
        ensures
            r.wf(),
            r@.name == self@.name,
            r@.subs == self@.subs,
            r@.props == props_push(
                self@.props,
                (PropModel {
                    group: None,
                    name: "MEMBER"@,
                    params: Seq::empty(),
                    value: uri@,
                }),
            ),
    {
        let p = Property {
            name: "MEMBER".to_owned(),
            params: StrMap::new(),
            raw_value: uri,
            prop_group: None,
        };
        proof {
            assert(p@.params =~= Seq::<(Seq<char>, Seq<char>)>::empty());
        }
        let mut this = self;
        this.0.push(p);
        this
    }

    /// Chainable: appends a `NOTE` property with the given value.
    pub fn with_note(self, text: String) -> (r: Vcard)
        requires
            self.wf(),
        ensures
            r.wf(),
            r@.name == self@.name,
            r@.subs == self@.subs,
            r@.props == props_push(
                self@.props,
                (PropModel {
                    group: None,
                    name: "NOTE"@,
                    params: Seq::empty(),
                    value: text@,
                }),
            ),
    {
        let p = Property {
            name: "NOTE".to_owned(),
            params: StrMap::new(),
            raw_value: text,
            prop_group: None,
        };
        proof {
            assert(p@.params =~= Seq::<(Seq<char>, Seq<char>)>::empty());
        }
        let mut this = self;
        this.0.push(p);
        this
    }

    /// Chainable: appends a `PRODID` property with the given value.
    pub fn with_proid(self, param: String) -> (r: Vcard)
        requires
            self.wf(),
        ensures
            r.wf(),
            r@.name == self@.name,
            r@.subs == self@.subs,
            r@.props == props_push(
                self@.props,
                (PropModel {
                    group: None,
                    name: "PRODID"@,
                    params: Seq::empty(),
                    value: param@,
                }),
            ),
    {
        let p = Property {
            name: "PRODID".to_owned(),
            params: StrMap::new(),
            raw_value: param,
            prop_group: None,
        };
        proof {
            assert(p@.params =~= Seq::<(Seq<char>, Seq<char>)>::empty());
        }
        let mut this = self;
        this.0.push(p);
        this
    }

    /// Chainable: appends a `RELATED` property with the given value.
    pub fn with_related(self, uri: String) -> (r: Vcard)
        requires
            self.wf(),
        ensures
            r.wf(),
            r@.name == self@.name,
            r@.subs == self@.subs,
            r@.props == props_push(
                self@.props,
                (PropModel {
                    group: None,
                    name: "RELATED"@,
                    params: Seq::empty(),
                    value: uri@,
                }),
            ),
    {
        let p = Property {
            name: "RELATED".to_owned(),
            params: StrMap::new(),
            raw_value: uri,
            prop_group: None,
        };
        proof {
            assert(p@.params =~= Seq::<(Seq<char>, Seq<char>)>::empty());
        }
        let mut this = self;
        this.0.push(p);
        this
    }

    /// Chainable: appends a `ROLE` property with the given value.
    pub fn with_role(self, role: String) -> (r: Vcard)
        requires
            self.wf(),
        ensures
            r.wf(),
            r@.name == self@.name,
            r@.subs == self@.subs,
            r@.props == props_push(
                self@.props,
                (PropModel {
                    group: None,
                    name: "ROLE"@,
                    params: Seq::empty(),
                    value: role@,
                }),
            ),
    {
        let p = Property {
            name: "ROLE".to_owned(),
            params: StrMap::new(),
            raw_value: role,
            prop_group: None,
        };
        proof {
            assert(p@.params =~= Seq::<(Seq<char>, Seq<char>)>::empty());
        }
        let mut this = self;
        this.0.push(p);
        this
    }

    /// Chainable: appends a `SOUND` property with the given value.
    pub fn with_sound(self, uri: String) -> (r: Vcard)
        requires
            self.wf(),
        ensures
            r.wf(),
            r@.name == self@.name,
            r@.subs == self@.subs,
            r@.props == props_push(
                self@.props,
                (PropModel {
                    group: None,
                    name: "SOUND"@,
                    params: Seq::empty(),
                    value: uri@,
                }),
            ),
    {
        let p = Property {
            name: "SOUND".to_owned(),
            params: StrMap::new(),
            raw_value: uri,
            prop_group: None,
        };
        proof {
            assert(p@.params =~= Seq::<(Seq<char>, Seq<char>)>::empty());
        }
        let mut this = self;
        this.0.push(p);
        this
    }

    /// Chainable: appends a `TZ` property with the given value.
    pub fn with_tz(self, tz: String) -> (r: Vcard)
        requires
            self.wf(),
        ensures
            r.wf(),
            r@.name == self@.name,
            r@.subs == self@.subs,
            r@.props == props_push(
                self@.props,
                (PropModel {
                    group: None,
                    name: "TZ"@,
                    params: Seq::empty(),
                    value: tz@,
                }),
            ),
    {
        let p = Property {
            name: "TZ".to_owned(),
            params: StrMap::new(),
            raw_value: tz,
            prop_group: None,
        };
        proof {
            assert(p@.params =~= Seq::<(Seq<char>, Seq<char>)>::empty());
        }
        let mut this = self;
        this.0.push(p);
        this
    }

    /// Chainable: appends a `UID` property with the given value.
    pub fn with_uid(self, uri: String) -> (r: Vcard)
        requires
            self.wf(),
        ensures
            r.wf(),
            r@.name == self@.name,
            r@.subs == self@.subs,
            r@.props == props_push(
                self@.props,
                (PropModel {
                    group: None,
                    name: "UID"@,
                    params: Seq::empty(),
                    value: uri@,
                }),
            ),
    {
        let p = Property {
            name: "UID".to_owned(),
            params: StrMap::new(),
            raw_value: uri,
            prop_group: None,
        };
        proof {
            assert(p@.params =~= Seq::<(Seq<char>, Seq<char>)>::empty());
        }
        let mut this = self;
        this.0.push(p);
        this
    }

    /// Chainable: appends a `URL` property with the given value.
    pub fn with_url(self, uri: String) -> (r: Vcard)
        requires
            self.wf(),
        ensures
            r.wf(),
            r@.name == self@.name,
            r@.subs == self@.subs,
            r@.props == props_push(
                self@.props,
                (PropModel {
                    group: None,
                    name: "URL"@,
                    params: Seq::empty(),
                    value: uri@,
                }),
            ),
    {
        let p = Property {
            name: "URL".to_owned(),
            params: StrMap::new(),
            raw_value: uri,
            prop_group: None,
        };
        proof {
            assert(p@.params =~= Seq::<(Seq<char>, Seq<char>)>::empty());
        }
        let mut this = self;
        this.0.push(p);
        this
    }

    /// Chainable: appends a `VERSION` property with the given value.
    pub fn with_version(self, version: String) -> (r: Vcard)
        requires
            self.wf(),
        ensures
            r.wf(),
            r@.name == self@.name,
            r@.subs == self@.subs,
            r@.props == props_push(
                self@.props,
                (PropModel {
                    group: None,
                    name: "VERSION"@,
                    params: Seq::empty(),
                    value: version@,
                }),
            ),
    {
        let p = Property {
            name: "VERSION".to_owned(),
            params: StrMap::new(),
            raw_value: version,
            prop_group: None,
        };
        proof {
            assert(p@.params =~= Seq::<(Seq<char>, Seq<char>)>::empty());
        }
        let mut this = self;
        this.0.push(p);
        this
    }

    /// Chainable: appends a `BDAY` property with the given parameters
    /// and value.
    pub fn with_bday(self, params: Params, value: String) -> (r: Vcard)
        requires
            self.wf(),
        ensures
            r.wf(),
            r@.name == self@.name,
            r@.subs == self@.subs,
            r@.props == props_push(
                self@.props,
                (PropModel { group: None, name: "BDAY"@, params: params@, value: value@ }),
            ),
    {
        let p = Property {
            name: "BDAY".to_owned(),
            params,
            raw_value: value,
            prop_group: None,
        };
        let mut this = self;
        this.0.push(p);
        this
    }

    /// Chainable: appends a `GENDER` property with the given parameters
    /// and value.
    pub fn with_gender(self, params: Params, value: String) -> (r: Vcard)
        requires
            self.wf(),
        ensures
            r.wf(),
            r@.name == self@.name,
            r@.subs == self@.subs,
            r@.props == props_push(
                self@.props,
                (PropModel { group: None, name: "GENDER"@, params: params@, value: value@ }),
            ),
    {
        let p = Property {
            name: "GENDER".to_owned(),
            params,
            raw_value: value,
            prop_group: None,
        };
        let mut this = self;
        this.0.push(p);
        this
    }

    /// Chainable: appends a `NICKNAME` property with the given parameters
    /// and value.
    pub fn with_nickname(self, params: Params, name: String) -> (r: Vcard)
        requires
            self.wf(),
        ensures
            r.wf(),
            r@.name == self@.name,
            r@.subs == self@.subs,
            r@.props == props_push(
                self@.props,
                (PropModel { group: None, name: "NICKNAME"@, params: params@, value: name@ }),
            ),
    {
        let p = Property {
            name: "NICKNAME".to_owned(),
            params,
            raw_value: name,
            prop_group: None,
        };
        let mut this = self;
        this.0.push(p);
        this
    }

    /// Chainable: appends a `PHOTO` property with the given parameters
    /// and value.
    pub fn with_photo(self, params: Params, param: String) -> (r: Vcard)
        requires
            self.wf(),
        ensures
            r.wf(),
            r@.name == self@.name,
            r@.subs == self@.subs,
            r@.props == props_push(
                self@.props,
                (PropModel { group: None, name: "PHOTO"@, params: params@, value: param@ }),
            ),
    {
        let p = Property {
            name: "PHOTO".to_owned(),
            params,
            raw_value: param,
            prop_group: None,
        };
        let mut this = self;
        this.0.push(p);
        this
    }

    /// Chainable: appends a `CATEGORIES` property joining the given values with
    /// `;`.
    pub fn with_categories(self, org: Vec<String>) -> (r: Vcard)
        requires
            self.wf(),
        ensures
            r.wf(),
            r@.name == self@.name,
            r@.subs == self@.subs,
            r@.props == props_push(
                self@.props,
                (PropModel {
                    group: None,
                    name: "CATEGORIES"@,
                    params: Seq::empty(),
                    value: join_semi(org.deep_view()),
                }),
            ),
    {
        let n = org.len();
        let mut raw = String::new();
        let mut i: usize = 0;
        proof {
            assert(org.deep_view().take(0).len() == 0);
            assert(raw@ =~= join_semi(org.deep_view().take(0)));
        }
        while i < n
            invariant
                n == org@.len(),
                i <= n,
                raw@ == join_semi(org.deep_view().take(i as int)),
            decreases n - i,
        {
            if i > 0 {
                push_char(&mut raw, ';');
            }
            raw.append(vec_index(&org, i).as_str());
            proof {
                assert(org.deep_view()[i as int] == org@[i as int]@);
                lemma_join_semi_snoc(org.deep_view(), i as int);
            }
            i = i + 1;
        }
        proof {
            assert(org.deep_view().take(n as int) =~= org.deep_view());
        }
        let p = Property {
            name: "CATEGORIES".to_owned(),
            params: StrMap::new(),
            raw_value: raw,
            prop_group: None,
        };
        proof {
            assert(p@.params =~= Seq::<(Seq<char>, Seq<char>)>::empty());
        }
        let mut this = self;
        this.0.push(p);
        this
    }
}

impl Default for Vcard {
    /// An empty vCard with nothing in it at all.
    fn default() -> (r: Vcard)
        ensures
            r@.name == "VCARD"@,
            r@.props.len() == 0,
            r@.subs.len() == 0,
            r.wf(),
    {
        Vcard(Component::new("VCARD"))
    }
}

/// The given texts joined with `;` between them.
pub open spec fn join_semi(l: Seq<Seq<char>>) -> Seq<char>
    decreases l.len(),
{
    if l.len() == 0 {
        Seq::empty()
    } else if l.len() == 1 {
        l[0]
    } else {
        l[0] + seq![';'] + join_semi(l.drop_first())
    }
}

/// One more text extends the joined form at its end.
proof fn lemma_join_semi_snoc(l: Seq<Seq<char>>, n: int)
    requires
        0 <= n < l.len(),
    ensures
        join_semi(l.take(n + 1)) == join_semi(l.take(n)) + (if n > 0 {
            seq![';'] + l[n]
        } else {
            l[n]
        }),
    decreases n,
{
    if n == 0 {
        assert(l.take(1)[0] == l[0]);
        assert(l.take(1).len() == 1);
        assert(join_semi(l.take(0)) =~= Seq::<char>::empty());
        assert(join_semi(l.take(1)) == l[0]);
        assert(join_semi(l.take(0)) + l[0] =~= l[0]);
    } else {
        let t = l.drop_first();
        lemma_join_semi_snoc(t, n - 1);
        assert(l.take(n + 1)[0] == l[0]);
        assert(l.take(n)[0] == l[0]);
        assert(l.take(n + 1).drop_first() =~= t.take(n));
        assert(l.take(n).drop_first() =~= t.take(n - 1));
        assert(t[n - 1] == l[n]);
        assert(l.take(n + 1).len() == n + 1);
        assert(l.take(n).len() == n);
        if n == 1 {
            assert(join_semi(l.take(2)) == l[0] + seq![';'] + join_semi(t.take(1)));
            assert(join_semi(t.take(1)) == t[0]);
            assert(join_semi(l.take(1)) == l[0]);
            assert(l[0] + (seq![';'] + l[1]) =~= l[0] + seq![';'] + join_semi(t.take(1)));
        } else {
            assert(join_semi(l.take(n + 1)) == l[0] + seq![';'] + join_semi(t.take(n)));
            assert(join_semi(l.take(n)) == l[0] + seq![';'] + join_semi(t.take(n - 1)));
            assert((l[0] + seq![';'] + join_semi(t.take(n - 1))) + (seq![';'] + l[n]) =~= l[0]
                + seq![';'] + (join_semi(t.take(n - 1)) + (seq![';'] + l[n])));
        }
    }
}

} // verus!
