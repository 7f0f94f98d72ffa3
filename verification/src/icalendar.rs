//! The iCalendar view over the generic component model: a `VCALENDAR`
//! wrapper, its `VEVENT`s, and typed wrappers around single properties.

use vstd::prelude::*;
use vstd::std_specs::vec::vec_index;

use crate::chars::str_eq;
use crate::component::model_wf;
use crate::component::parse_err_desc;
use crate::component::props_push;
use crate::component::parse_component;
use crate::component::CompModel;
use crate::component::Component;
use crate::error::VObjectError;
use crate::grammar::sp_component;
use crate::property::Params;
use crate::property::PropModel;
use crate::property::Property;
use crate::strmap::entries_sorted;
use crate::strmap::map_insert;
use crate::strmap::map_val;
use crate::strmap::StrMap;

verus! {

broadcast use vstd::seq::group_seq_axioms;

/// The raw value and parameters of a `VERSION` property.
#[derive(Debug, PartialEq, Eq)]
pub struct Version(String, Params);

impl View for Version {
    type V = (Seq<char>, Seq<(Seq<char>, Seq<char>)>);

    closed spec fn view(&self) -> (Seq<char>, Seq<(Seq<char>, Seq<char>)>) {
        (self.0@, self.1@)
    }
}

impl Version {
    /// Wraps a raw value and its parameters.
    pub fn new(raw: String, params: Params) -> (r: Version)
        ensures
            r@ == ((raw@, params@)),
    {
        Version(raw, params)
    }

    /// The wrapper for the given property's value and parameters.
    fn from_prop(p: &Property) -> (r: Version)
        ensures
            r@ == ((p@.value, p@.params)),
    {
        Version(p.raw_value.clone(), p.params.duplicate())
    }

    /// The raw value, borrowed.
    pub fn raw(&self) -> (r: &String)
        ensures
            r@ == self@.0,
    {
        &self.0
    }

    /// The raw value, moved out.
    pub fn into_raw(self) -> (r: String)
        ensures
            r@ == self@.0,
    {
        self.0
    }

    /// The parameters, borrowed.
    pub fn params(&self) -> (r: &Params)
        ensures
            r@ == self@.1,
    {
        &self.1
    }
}

/// The raw value and parameters of a `PRODID` property.
#[derive(Debug, PartialEq, Eq)]
pub struct Prodid(String, Params);

impl View for Prodid {
    type V = (Seq<char>, Seq<(Seq<char>, Seq<char>)>);

    closed spec fn view(&self) -> (Seq<char>, Seq<(Seq<char>, Seq<char>)>) {
        (self.0@, self.1@)
    }
}

impl Prodid {
    /// Wraps a raw value and its parameters.
    pub fn new(raw: String, params: Params) -> (r: Prodid)
        ensures
            r@ == ((raw@, params@)),
    {
        Prodid(raw, params)
    }

    /// The wrapper for the given property's value and parameters.
    fn from_prop(p: &Property) -> (r: Prodid)
        ensures
            r@ == ((p@.value, p@.params)),
    {
        Prodid(p.raw_value.clone(), p.params.duplicate())
    }

    /// The raw value, borrowed.
    pub fn raw(&self) -> (r: &String)
        ensures
            r@ == self@.0,
    {
        &self.0
    }

    /// The raw value, moved out.
    pub fn into_raw(self) -> (r: String)
        ensures
            r@ == self@.0,
    {
        self.0
    }

    /// The parameters, borrowed.
    pub fn params(&self) -> (r: &Params)
        ensures
            r@ == self@.1,
    {
        &self.1
    }
}

/// The raw value and parameters of a `DTEND` property.
#[derive(Debug, PartialEq, Eq)]
pub struct Dtend(String, Params);

impl View for Dtend {
    type V = (Seq<char>, Seq<(Seq<char>, Seq<char>)>);

    closed spec fn view(&self) -> (Seq<char>, Seq<(Seq<char>, Seq<char>)>) {
        (self.0@, self.1@)
    }
}

impl Dtend {
    /// Wraps a raw value and its parameters.
    pub fn new(raw: String, params: Params) -> (r: Dtend)
        ensures
            r@ == ((raw@, params@)),
    {
        Dtend(raw, params)
    }

    /// The wrapper for the given property's value and parameters.
    fn from_prop(p: &Property) -> (r: Dtend)
        ensures
            r@ == ((p@.value, p@.params)),
    {
        Dtend(p.raw_value.clone(), p.params.duplicate())
    }

    /// The raw value, borrowed.
    pub fn raw(&self) -> (r: &String)
        ensures
            r@ == self@.0,
    {
        &self.0
    }

    /// The raw value, moved out.
    pub fn into_raw(self) -> (r: String)
        ensures
            r@ == self@.0,
    {
        self.0
    }

    /// The parameters, borrowed.
    pub fn params(&self) -> (r: &Params)
        ensures
            r@ == self@.1,
    {
        &self.1
    }
}

/// The raw value and parameters of a `DTSTART` property.
#[derive(Debug, PartialEq, Eq)]
pub struct Dtstart(String, Params);

impl View for Dtstart {
    type V = (Seq<char>, Seq<(Seq<char>, Seq<char>)>);

    closed spec fn view(&self) -> (Seq<char>, Seq<(Seq<char>, Seq<char>)>) {
        (self.0@, self.1@)
    }
}

impl Dtstart {
    /// Wraps a raw value and its parameters.
    pub fn new(raw: String, params: Params) -> (r: Dtstart)
        ensures
            r@ == ((raw@, params@)),
    {
        Dtstart(raw, params)
    }

    /// The wrapper for the given property's value and parameters.
    fn from_prop(p: &Property) -> (r: Dtstart)
        ensures
            r@ == ((p@.value, p@.params)),
    {
        Dtstart(p.raw_value.clone(), p.params.duplicate())
    }

    /// The raw value, borrowed.
    pub fn raw(&self) -> (r: &String)
        ensures
            r@ == self@.0,
    {
        &self.0
    }

    /// The raw value, moved out.
    pub fn into_raw(self) -> (r: String)
        ensures
            r@ == self@.0,
    {
        self.0
    }

    /// The parameters, borrowed.
    pub fn params(&self) -> (r: &Params)
        ensures
            r@ == self@.1,
    {
        &self.1
    }
}

/// The raw value and parameters of a `DTSTAMP` property.
#[derive(Debug, PartialEq, Eq)]
pub struct Dtstamp(String, Params);

impl View for Dtstamp {
    type V = (Seq<char>, Seq<(Seq<char>, Seq<char>)>);

    closed spec fn view(&self) -> (Seq<char>, Seq<(Seq<char>, Seq<char>)>) {
        (self.0@, self.1@)
    }
}

impl Dtstamp {
    /// Wraps a raw value and its parameters.
    pub fn new(raw: String, params: Params) -> (r: Dtstamp)
        ensures
            r@ == ((raw@, params@)),
    {
        Dtstamp(raw, params)
    }

    /// The wrapper for the given property's value and parameters.
    fn from_prop(p: &Property) -> (r: Dtstamp)
        ensures
            r@ == ((p@.value, p@.params)),
    {
        Dtstamp(p.raw_value.clone(), p.params.duplicate())
    }

    /// The raw value, borrowed.
    pub fn raw(&self) -> (r: &String)
        ensures
            r@ == self@.0,
    {
        &self.0
    }

    /// The raw value, moved out.
    pub fn into_raw(self) -> (r: String)
        ensures
            r@ == self@.0,
    {
        self.0
    }

    /// The parameters, borrowed.
    pub fn params(&self) -> (r: &Params)
        ensures
            r@ == self@.1,
    {
        &self.1
    }
}

/// The raw value and parameters of a `UID` property.
#[derive(Debug, PartialEq, Eq)]
pub struct Uid(String, Params);

impl View for Uid {
    type V = (Seq<char>, Seq<(Seq<char>, Seq<char>)>);

    closed spec fn view(&self) -> (Seq<char>, Seq<(Seq<char>, Seq<char>)>) {
        (self.0@, self.1@)
    }
}

impl Uid {
    /// Wraps a raw value and its parameters.
    pub fn new(raw: String, params: Params) -> (r: Uid)
        ensures
            r@ == ((raw@, params@)),
    {
        Uid(raw, params)
    }

    /// The wrapper for the given property's value and parameters.
    fn from_prop(p: &Property) -> (r: Uid)
        ensures
            r@ == ((p@.value, p@.params)),
    {
        Uid(p.raw_value.clone(), p.params.duplicate())
    }

    /// The raw value, borrowed.
    pub fn raw(&self) -> (r: &String)
        ensures
            r@ == self@.0,
    {
        &self.0
    }

    /// The raw value, moved out.
    pub fn into_raw(self) -> (r: String)
        ensures
            r@ == self@.0,
    {
        self.0
    }

    /// The parameters, borrowed.
    pub fn params(&self) -> (r: &Params)
        ensures
            r@ == self@.1,
    {
        &self.1
    }
}

/// The raw value and parameters of a `DESCRIPTION` property.
#[derive(Debug, PartialEq, Eq)]
pub struct Description(String, Params);

impl View for Description {
    type V = (Seq<char>, Seq<(Seq<char>, Seq<char>)>);

    closed spec fn view(&self) -> (Seq<char>, Seq<(Seq<char>, Seq<char>)>) {
        (self.0@, self.1@)
    }
}

impl Description {
    /// Wraps a raw value and its parameters.
    pub fn new(raw: String, params: Params) -> (r: Description)
        ensures
            r@ == ((raw@, params@)),
    {
        Description(raw, params)
    }

    /// The wrapper for the given property's value and parameters.
    fn from_prop(p: &Property) -> (r: Description)
        ensures
            r@ == ((p@.value, p@.params)),
    {
        Description(p.raw_value.clone(), p.params.duplicate())
    }

    /// The raw value, borrowed.
    pub fn raw(&self) -> (r: &String)
        ensures
            r@ == self@.0,
    {
        &self.0
    }

    /// The raw value, moved out.
    pub fn into_raw(self) -> (r: String)
        ensures
            r@ == self@.0,
    {
        self.0
    }

    /// The parameters, borrowed.
    pub fn params(&self) -> (r: &Params)
        ensures
            r@ == self@.1,
    {
        &self.1
    }
}

/// The raw value and parameters of a `SUMMARY` property.
#[derive(Debug, PartialEq, Eq)]
pub struct Summary(String, Params);

impl View for Summary {
    type V = (Seq<char>, Seq<(Seq<char>, Seq<char>)>);

    closed spec fn view(&self) -> (Seq<char>, Seq<(Seq<char>, Seq<char>)>) {
        (self.0@, self.1@)
    }
}

impl Summary {
    /// Wraps a raw value and its parameters.
    pub fn new(raw: String, params: Params) -> (r: Summary)
        ensures
            r@ == ((raw@, params@)),
    {
        Summary(raw, params)
    }

    /// The wrapper for the given property's value and parameters.
    fn from_prop(p: &Property) -> (r: Summary)
        ensures
            r@ == ((p@.value, p@.params)),
    {
        Summary(p.raw_value.clone(), p.params.duplicate())
    }

    /// The raw value, borrowed.
    pub fn raw(&self) -> (r: &String)
        ensures
            r@ == self@.0,
    {
        &self.0
    }

    /// The raw value, moved out.
    pub fn into_raw(self) -> (r: String)
        ensures
            r@ == self@.0,
    {
        self.0
    }

    /// The parameters, borrowed.
    pub fn params(&self) -> (r: &Params)
        ensures
            r@ == self@.1,
    {
        &self.1
    }
}

/// The raw value and parameters of a `URL` property.
#[derive(Debug, PartialEq, Eq)]
pub struct Url(String, Params);

impl View for Url {
    type V = (Seq<char>, Seq<(Seq<char>, Seq<char>)>);

    closed spec fn view(&self) -> (Seq<char>, Seq<(Seq<char>, Seq<char>)>) {
        (self.0@, self.1@)
    }
}

impl Url {
    /// Wraps a raw value and its parameters.
    pub fn new(raw: String, params: Params) -> (r: Url)
        ensures
            r@ == ((raw@, params@)),
    {
        Url(raw, params)
    }

    /// The wrapper for the given property's value and parameters.
    fn from_prop(p: &Property) -> (r: Url)
        ensures
            r@ == ((p@.value, p@.params)),
    {
        Url(p.raw_value.clone(), p.params.duplicate())
    }

    /// The raw value, borrowed.
    pub fn raw(&self) -> (r: &String)
        ensures
            r@ == self@.0,
    {
        &self.0
    }

    /// The raw value, moved out.
    pub fn into_raw(self) -> (r: String)
        ensures
            r@ == self@.0,
    {
        self.0
    }

    /// The parameters, borrowed.
    pub fn params(&self) -> (r: &Params)
        ensures
            r@ == self@.1,
    {
        &self.1
    }
}

/// The raw value and parameters of a `LOCATION` property.
#[derive(Debug, PartialEq, Eq)]
pub struct Location(String, Params);

impl View for Location {
    type V = (Seq<char>, Seq<(Seq<char>, Seq<char>)>);

    closed spec fn view(&self) -> (Seq<char>, Seq<(Seq<char>, Seq<char>)>) {
        (self.0@, self.1@)
    }
}

impl Location {
    /// Wraps a raw value and its parameters.
    pub fn new(raw: String, params: Params) -> (r: Location)
        ensures
            r@ == ((raw@, params@)),
    {
        Location(raw, params)
    }

    /// The wrapper for the given property's value and parameters.
    fn from_prop(p: &Property) -> (r: Location)
        ensures
            r@ == ((p@.value, p@.params)),
    {
        Location(p.raw_value.clone(), p.params.duplicate())
    }

    /// The raw value, borrowed.
    pub fn raw(&self) -> (r: &String)
        ensures
            r@ == self@.0,
    {
        &self.0
    }

    /// The raw value, moved out.
    pub fn into_raw(self) -> (r: String)
        ensures
            r@ == self@.0,
    {
        self.0
    }

    /// The parameters, borrowed.
    pub fn params(&self) -> (r: &Params)
        ensures
            r@ == self@.1,
    {
        &self.1
    }
}

/// The raw value and parameters of a `CLASS` property.
#[derive(Debug, PartialEq, Eq)]
pub struct Class(String, Params);

impl View for Class {
    type V = (Seq<char>, Seq<(Seq<char>, Seq<char>)>);

    closed spec fn view(&self) -> (Seq<char>, Seq<(Seq<char>, Seq<char>)>) {
        (self.0@, self.1@)
    }
}

impl Class {
    /// Wraps a raw value and its parameters.
    pub fn new(raw: String, params: Params) -> (r: Class)
        ensures
            r@ == ((raw@, params@)),
    {
        Class(raw, params)
    }

    /// The wrapper for the given property's value and parameters.
    fn from_prop(p: &Property) -> (r: Class)
        ensures
            r@ == ((p@.value, p@.params)),
    {
        Class(p.raw_value.clone(), p.params.duplicate())
    }

    /// The raw value, borrowed.
    pub fn raw(&self) -> (r: &String)
        ensures
            r@ == self@.0,
    {
        &self.0
    }

    /// The raw value, moved out.
    pub fn into_raw(self) -> (r: String)
        ensures
            r@ == self@.0,
    {
        self.0
    }

    /// The parameters, borrowed.
    pub fn params(&self) -> (r: &Params)
        ensures
            r@ == self@.1,
    {
        &self.1
    }
}

/// The raw value and parameters of a `CATEGORIES` property.
#[derive(Debug, PartialEq, Eq)]
pub struct Categories(String, Params);

impl View for Categories {
    type V = (Seq<char>, Seq<(Seq<char>, Seq<char>)>);

    closed spec fn view(&self) -> (Seq<char>, Seq<(Seq<char>, Seq<char>)>) {
        (self.0@, self.1@)
    }
}

impl Categories {
    /// Wraps a raw value and its parameters.
    pub fn new(raw: String, params: Params) -> (r: Categories)
        ensures
            r@ == ((raw@, params@)),
    {
        Categories(raw, params)
    }

    /// The wrapper for the given property's value and parameters.
    fn from_prop(p: &Property) -> (r: Categories)
        ensures
            r@ == ((p@.value, p@.params)),
    {
        Categories(p.raw_value.clone(), p.params.duplicate())
    }

    /// The raw value, borrowed.
    pub fn raw(&self) -> (r: &String)
        ensures
            r@ == self@.0,
    {
        &self.0
    }

    /// The raw value, moved out.
    pub fn into_raw(self) -> (r: String)
        ensures
            r@ == self@.0,
    {
        self.0
    }

    /// The parameters, borrowed.
    pub fn params(&self) -> (r: &Params)
        ensures
            r@ == self@.1,
    {
        &self.1
    }
}

/// The raw value and parameters of a `TRANSP` property.
#[derive(Debug, PartialEq, Eq)]
pub struct Transp(String, Params);

impl View for Transp {
    type V = (Seq<char>, Seq<(Seq<char>, Seq<char>)>);

    closed spec fn view(&self) -> (Seq<char>, Seq<(Seq<char>, Seq<char>)>) {
        (self.0@, self.1@)
    }
}

impl Transp {
    /// Wraps a raw value and its parameters.
    pub fn new(raw: String, params: Params) -> (r: Transp)
        ensures
            r@ == ((raw@, params@)),
    {
        Transp(raw, params)
    }

    /// The wrapper for the given property's value and parameters.
    fn from_prop(p: &Property) -> (r: Transp)
        ensures
            r@ == ((p@.value, p@.params)),
    {
        Transp(p.raw_value.clone(), p.params.duplicate())
    }

    /// The raw value, borrowed.
    pub fn raw(&self) -> (r: &String)
        ensures
            r@ == self@.0,
    {
        &self.0
    }

    /// The raw value, moved out.
    pub fn into_raw(self) -> (r: String)
        ensures
            r@ == self@.0,
    {
        self.0
    }

    /// The parameters, borrowed.
    pub fn params(&self) -> (r: &Params)
        ensures
            r@ == self@.1,
    {
        &self.1
    }
}

/// The raw value and parameters of a `RRULE` property.
#[derive(Debug, PartialEq, Eq)]
pub struct Rrule(String, Params);

impl View for Rrule {
    type V = (Seq<char>, Seq<(Seq<char>, Seq<char>)>);

    closed spec fn view(&self) -> (Seq<char>, Seq<(Seq<char>, Seq<char>)>) {
        (self.0@, self.1@)
    }
}

impl Rrule {
    /// Wraps a raw value and its parameters.
    pub fn new(raw: String, params: Params) -> (r: Rrule)
        ensures
            r@ == ((raw@, params@)),
    {
        Rrule(raw, params)
    }

    /// The wrapper for the given property's value and parameters.
    fn from_prop(p: &Property) -> (r: Rrule)
        ensures
            r@ == ((p@.value, p@.params)),
    {
        Rrule(p.raw_value.clone(), p.params.duplicate())
    }

    /// The raw value, borrowed.
    pub fn raw(&self) -> (r: &String)
        ensures
            r@ == self@.0,
    {
        &self.0
    }

    /// The raw value, moved out.
    pub fn into_raw(self) -> (r: String)
        ensures
            r@ == self@.0,
    {
        self.0
    }

    /// The parameters, borrowed.
    pub fn params(&self) -> (r: &Params)
        ensures
            r@ == self@.1,
    {
        &self.1
    }
}

/// An iCalendar: a component named `VCALENDAR`.
#[derive(Debug)]
pub struct ICalendar(Component);

impl View for ICalendar {
    type V = CompModel;

    closed spec fn view(&self) -> CompModel {
        self.0@
    }
}

impl ICalendar {
    /// The wrapped component's property store has sorted keys.
    pub open spec fn wf(&self) -> bool {
        entries_sorted(self@.props)
    }

    /// Parses a string into an iCalendar; text that parses to any other
    /// kind of component is rejected as well.
    pub fn build(s: &str) -> (r: Result<ICalendar, VObjectError>)
        ensures
            match sp_component(s@, 0) {
                Some((m, e)) => {
                    if e == s@.len() {
                        if m.name == "VCALENDAR"@ {
                            r matches Ok(v) && v@ == m && model_wf(m)
                        } else {
                            r matches Err(VObjectError::NotAnICalendar(t)) && t@ == s@
                        }
                    } else {
                        r matches Err(VObjectError::Parser(pe)) && pe@ == parse_err_desc(s@)
                    }
                },
                None => r matches Err(VObjectError::Parser(pe)) && pe@ == parse_err_desc(s@),
            },
    {
        let c = match parse_component(s) {
            Ok(c) => c,
            Err(e) => {
                return Err(e);
            }
        };
        match Self::from_component(c) {
            Ok(v) => Ok(v),
            Err(_) => Err(VObjectError::NotAnICalendar(s.to_owned())),
        }
    }

    /// A calendar with nothing in it.
    pub fn empty() -> (r: ICalendar)
        ensures
            r@.name == "VCALENDAR"@,
            r@.props.len() == 0,
            r@.subs.len() == 0,
            r.wf(),
    {
        ICalendar(Component::new("VCALENDAR"))
    }

    /// Adds an event to the calendar.
    pub fn add_event(&mut self, builder: EventBuilder)
        ensures
            final(self)@.name == old(self)@.name,
            final(self)@.props == old(self)@.props,
            final(self)@.subs == old(self)@.subs.push(builder@),
    {
        let ghost bm = builder@;
        self.0.subcomponents.push(builder.into_component());
        proof {
            assert(self@.subs =~= old(self)@.subs.push(bm));
        }
    }

    /// Chainable variant of [`ICalendar::add_event`].
    pub fn with_event(self, builder: EventBuilder) -> (r: ICalendar)
        ensures
            r@.name == self@.name,
            r@.props == self@.props,
            r@.subs == self@.subs.push(builder@),
    {
        let mut this = self;
        this.add_event(builder);
        this
    }

    /// Wraps a component into an iCalendar, or hands it back if it is not
    /// one.
    pub fn from_component(c: Component) -> (r: Result<ICalendar, Component>)
        ensures
            match r {
                Ok(v) => c@.name == "VCALENDAR"@ && v@ == c@,
                Err(d) => c@.name != "VCALENDAR"@ && d@ == c@,
            },
    {
        if str_eq(c.name.as_str(), "VCALENDAR") {
            Ok(ICalendar(c))
        } else {
            Err(c)
        }
    }

    /// An iterator-like view of the events (the subcomponents) of this
    /// calendar; non-event subcomponents come out as errors, losing nothing.
    pub fn events<'a>(&'a self) -> (r: EventIterator<'a>)
        ensures
            r.comps() == self@.subs,
            r.index() == 0,
    {
        EventIterator { comps: &self.0.subcomponents, idx: 0 }
    }

    /// The `VERSION` property, if there is exactly one.
    pub fn version(&self) -> (r: Option<Version>)
        requires
            self.wf(),
        ensures
            match map_val(self@.props, "VERSION"@) {
                Some(vs) => {
                    if vs.len() == 1 {
                        r matches Some(x) && x@ == ((vs[0].value, vs[0].params))
                    } else {
                        r is None
                    }
                },
                None => r is None,
            },
    {
        match self.0.get_only("VERSION") {
            Some(p) => Some(Version::from_prop(p)),
            None => None,
        }
    }

    /// The `PRODID` property, if there is exactly one.
    pub fn prodid(&self) -> (r: Option<Prodid>)
        requires
            self.wf(),
        ensures
            match map_val(self@.props, "PRODID"@) {
                Some(vs) => {
                    if vs.len() == 1 {
                        r matches Some(x) && x@ == ((vs[0].value, vs[0].params))
                    } else {
                        r is None
                    }
                },
                None => r is None,
            },
    {
        match self.0.get_only("PRODID") {
            Some(p) => Some(Prodid::from_prop(p)),
            None => None,
        }
    }
}

/// Walks over a calendar's subcomponents, wrapping each `VEVENT`.
pub struct EventIterator<'a> {
    comps: &'a Vec<Component>,
    idx: usize,
}

impl<'a> EventIterator<'a> {
    /// The models of the components walked over.
    pub closed spec fn comps(&self) -> Seq<CompModel> {
        self.comps.deep_view()
    }

    /// How many components were handed out already.
    pub closed spec fn index(&self) -> int {
        self.idx as int
    }

    /// The next subcomponent: an event, or the bare component where it is
    /// not a `VEVENT`.
    pub fn next(&mut self) -> (r: Option<Result<Event<'a>, &'a Component>>)
        ensures
            final(self).comps() == old(self).comps(),
            if old(self).index() < old(self).comps().len() {
                &&& final(self).index() == old(self).index() + 1
                &&& if old(self).comps()[old(self).index()].name == "VEVENT"@ {
                    r matches Some(Ok(ev)) && ev@ == old(self).comps()[old(self).index()]
                } else {
                    r matches Some(Err(c)) && c@ == old(self).comps()[old(self).index()]
                }
            } else {
                r is None && final(self).index() == old(self).index()
            },
    {
        if self.idx < self.comps.len() {
            let c = vec_index(self.comps, self.idx);
            self.idx = self.idx + 1;
            proof {
                assert(self.comps.deep_view()[self.idx - 1] == c@);
            }
            if str_eq(c.name.as_str(), "VEVENT") {
                Some(Ok(Event(c)))
            } else {
                Some(Err(c))
            }
        } else {
            None
        }
    }

    /// How many components are left to walk over.
    pub fn count(self) -> (n: usize)
        requires
            self.index() <= self.comps().len(),
        ensures
            n == self.comps().len() - self.index(),
    {
        self.comps.len() - self.idx
    }
}

/// One `VEVENT` inside a calendar.
#[derive(Debug, Clone)]
pub struct Event<'a>(&'a Component);

impl<'a> View for Event<'a> {
    type V = CompModel;

    closed spec fn view(&self) -> CompModel {
        self.0@
    }
}

impl<'a> Event<'a> {
    /// The wrapped component's property store has sorted keys.
    pub open spec fn wf(&self) -> bool {
        entries_sorted(self@.props)
    }

    /// A builder for a fresh event.
    pub fn build() -> (r: EventBuilder)
        ensures
            r@.name == "VEVENT"@,
            r@.props.len() == 0,
            r@.subs.len() == 0,
            r.wf(),
    {
        EventBuilder(Component::new("VEVENT"))
    }

    /// The `DTEND` property, if there is exactly one.
    pub fn dtend(&self) -> (r: Option<Dtend>)
        requires
            self.wf(),
        ensures
            match map_val(self@.props, "DTEND"@) {
                Some(vs) => {
                    if vs.len() == 1 {
                        r matches Some(x) && x@ == ((vs[0].value, vs[0].params))
                    } else {
                        r is None
                    }
                },
                None => r is None,
            },
    {
        match self.0.get_only("DTEND") {
            Some(p) => Some(Dtend::from_prop(p)),
            None => None,
        }
    }

    /// The `DTSTART` property, if there is exactly one.
    pub fn dtstart(&self) -> (r: Option<Dtstart>)
        requires
            self.wf(),
        ensures
            match map_val(self@.props, "DTSTART"@) {
                Some(vs) => {
                    if vs.len() == 1 {
                        r matches Some(x) && x@ == ((vs[0].value, vs[0].params))
                    } else {
                        r is None
                    }
                },
                None => r is None,
            },
    {
        match self.0.get_only("DTSTART") {
            Some(p) => Some(Dtstart::from_prop(p)),
            None => None,
        }
    }

    /// The `DTSTAMP` property, if there is exactly one.
    pub fn dtstamp(&self) -> (r: Option<Dtstamp>)
        requires
            self.wf(),
        ensures
            match map_val(self@.props, "DTSTAMP"@) {
                Some(vs) => {
                    if vs.len() == 1 {
                        r matches Some(x) && x@ == ((vs[0].value, vs[0].params))
                    } else {
                        r is None
                    }
                },
                None => r is None,
            },
    {
        match self.0.get_only("DTSTAMP") {
            Some(p) => Some(Dtstamp::from_prop(p)),
            None => None,
        }
    }

    /// The `UID` property, if there is exactly one.
    pub fn uid(&self) -> (r: Option<Uid>)
        requires
            self.wf(),
        ensures
            match map_val(self@.props, "UID"@) {
                Some(vs) => {
                    if vs.len() == 1 {
                        r matches Some(x) && x@ == ((vs[0].value, vs[0].params))
                    } else {
                        r is None
                    }
                },
                None => r is None,
            },
    {
        match self.0.get_only("UID") {
            Some(p) => Some(Uid::from_prop(p)),
            None => None,
        }
    }

    /// The `DESCRIPTION` property, if there is exactly one.
    pub fn description(&self) -> (r: Option<Description>)
        requires
            self.wf(),
        ensures
            match map_val(self@.props, "DESCRIPTION"@) {
                Some(vs) => {
                    if vs.len() == 1 {
                        r matches Some(x) && x@ == ((vs[0].value, vs[0].params))
                    } else {
                        r is None
                    }
                },
                None => r is None,
            },
    {
        match self.0.get_only("DESCRIPTION") {
            Some(p) => Some(Description::from_prop(p)),
            None => None,
        }
    }

    /// The `SUMMARY` property, if there is exactly one.
    pub fn summary(&self) -> (r: Option<Summary>)
        requires
            self.wf(),
        ensures
            match map_val(self@.props, "SUMMARY"@) {
                Some(vs) => {
                    if vs.len() == 1 {
                        r matches Some(x) && x@ == ((vs[0].value, vs[0].params))
                    } else {
                        r is None
                    }
                },
                None => r is None,
            },
    {
        match self.0.get_only("SUMMARY") {
            Some(p) => Some(Summary::from_prop(p)),
            None => None,
        }
    }

    /// The `URL` property, if there is exactly one.
    pub fn url(&self) -> (r: Option<Url>)
        requires
            self.wf(),
        ensures
            match map_val(self@.props, "URL"@) {
                Some(vs) => {
                    if vs.len() == 1 {
                        r matches Some(x) && x@ == ((vs[0].value, vs[0].params))
                    } else {
                        r is None
                    }
                },
                None => r is None,
            },
    {
        match self.0.get_only("URL") {
            Some(p) => Some(Url::from_prop(p)),
            None => None,
        }
    }

    /// The `LOCATION` property, if there is exactly one.
    pub fn location(&self) -> (r: Option<Location>)
        requires
            self.wf(),
        ensures
            match map_val(self@.props, "LOCATION"@) {
                Some(vs) => {
                    if vs.len() == 1 {
                        r matches Some(x) && x@ == ((vs[0].value, vs[0].params))
                    } else {
                        r is None
                    }
                },
                None => r is None,
            },
    {
        match self.0.get_only("LOCATION") {
            Some(p) => Some(Location::from_prop(p)),
            None => None,
        }
    }

    /// The `CLASS` property, if there is exactly one.
    pub fn class(&self) -> (r: Option<Class>)
        requires
            self.wf(),
        ensures
            match map_val(self@.props, "CLASS"@) {
                Some(vs) => {
                    if vs.len() == 1 {
                        r matches Some(x) && x@ == ((vs[0].value, vs[0].params))
                    } else {
                        r is None
                    }
                },
                None => r is None,
            },
    {
        match self.0.get_only("CLASS") {
            Some(p) => Some(Class::from_prop(p)),
            None => None,
        }
    }

    /// The `CATEGORIES` property, if there is exactly one.
    pub fn categories(&self) -> (r: Option<Categories>)
        requires
            self.wf(),
        ensures
            match map_val(self@.props, "CATEGORIES"@) {
                Some(vs) => {
                    if vs.len() == 1 {
                        r matches Some(x) && x@ == ((vs[0].value, vs[0].params))
                    } else {
                        r is None
                    }
                },
                None => r is None,
            },
    {
        match self.0.get_only("CATEGORIES") {
            Some(p) => Some(Categories::from_prop(p)),
            None => None,
        }
    }

    /// The `TRANSP` property, if there is exactly one.
    pub fn transp(&self) -> (r: Option<Transp>)
        requires
            self.wf(),
        ensures
            match map_val(self@.props, "TRANSP"@) {
                Some(vs) => {
                    if vs.len() == 1 {
                        r matches Some(x) && x@ == ((vs[0].value, vs[0].params))
                    } else {
                        r is None
                    }
                },
                None => r is None,
            },
    {
        match self.0.get_only("TRANSP") {
            Some(p) => Some(Transp::from_prop(p)),
            None => None,
        }
    }

    /// The `RRULE` property, if there is exactly one.
    pub fn rrule(&self) -> (r: Option<Rrule>)
        requires
            self.wf(),
        ensures
            match map_val(self@.props, "RRULE"@) {
                Some(vs) => {
                    if vs.len() == 1 {
                        r matches Some(x) && x@ == ((vs[0].value, vs[0].params))
                    } else {
                        r is None
                    }
                },
                None => r is None,
            },
    {
        match self.0.get_only("RRULE") {
            Some(p) => Some(Rrule::from_prop(p)),
            None => None,
        }
    }
}

/// Builds one event as a bare component.
#[derive(Debug)]
pub struct EventBuilder(Component);

impl View for EventBuilder {
    type V = CompModel;

    closed spec fn view(&self) -> CompModel {
        self.0@
    }
}

impl EventBuilder {
    /// The wrapped component's property store has sorted keys.
    pub open spec fn wf(&self) -> bool {
        entries_sorted(self@.props)
    }

    /// Hands the built component out.
    fn into_component(self) -> (c: Component)
        ensures
            c@ == self@,
    {
        self.0
    }

    /// Sets the `DTEND` property; older values are dropped silently.
    pub fn set_dtend(&mut self, value: Dtend, params: Option<Params>)
        requires
            old(self).wf(),
        ensures
            final(self).wf(),
            final(self)@.name == old(self)@.name,
            final(self)@.subs == old(self)@.subs,
            final(self)@.props == map_insert(
                old(self)@.props,
                "DTEND"@,
                seq![
                    (PropModel {
                        group: None,
                        name: "DTEND"@,
                        params: match params {
                            Some(ps) => ps@,
                            None => Seq::empty(),
                        },
                        value: value@.0,
                    }),
                ],
            ),
    {
        let ghost pview = (match params {
            Some(ref ps2) => ps2@,
            None => Seq::<(Seq<char>, Seq<char>)>::empty(),
        });
        let ps = match params {
            Some(ps) => ps,
            None => StrMap::new(),
        };
        proof {
            assert(ps@ =~= pview);
        }
        let property = Property {
            name: "DTEND".to_owned(),
            params: ps,
            raw_value: value.into_raw(),
            prop_group: None,
        };
        proof {
            crate::strmap::lemma_map_insert_sorted(old(self)@.props, "DTEND"@, seq![property@]);
        }
        self.0.set(property);
    }

    /// Sets the `DTSTART` property; older values are dropped silently.
    pub fn set_dtstart(&mut self, value: Dtstart, params: Option<Params>)
        requires
            old(self).wf(),
        ensures
            final(self).wf(),
            final(self)@.name == old(self)@.name,
            final(self)@.subs == old(self)@.subs,
            final(self)@.props == map_insert(
                old(self)@.props,
                "DTSTART"@,
                seq![
                    (PropModel {
                        group: None,
                        name: "DTSTART"@,
                        params: match params {
                            Some(ps) => ps@,
                            None => Seq::empty(),
                        },
                        value: value@.0,
                    }),
                ],
            ),
    {
        let ghost pview = (match params {
            Some(ref ps2) => ps2@,
            None => Seq::<(Seq<char>, Seq<char>)>::empty(),
        });
        let ps = match params {
            Some(ps) => ps,
            None => StrMap::new(),
        };
        proof {
            assert(ps@ =~= pview);
        }
        let property = Property {
            name: "DTSTART".to_owned(),
            params: ps,
            raw_value: value.into_raw(),
            prop_group: None,
        };
        proof {
            crate::strmap::lemma_map_insert_sorted(old(self)@.props, "DTSTART"@, seq![property@]);
        }
        self.0.set(property);
    }

    /// Sets the `DTSTAMP` property; older values are dropped silently.
    pub fn set_dtstamp(&mut self, value: Dtstamp, params: Option<Params>)
        requires
            old(self).wf(),
        ensures
            final(self).wf(),
            final(self)@.name == old(self)@.name,
            final(self)@.subs == old(self)@.subs,
            final(self)@.props == map_insert(
                old(self)@.props,
                "DTSTAMP"@,
                seq![
                    (PropModel {
                        group: None,
                        name: "DTSTAMP"@,
                        params: match params {
                            Some(ps) => ps@,
                            None => Seq::empty(),
                        },
                        value: value@.0,
                    }),
                ],
            ),
    {
        let ghost pview = (match params {
            Some(ref ps2) => ps2@,
            None => Seq::<(Seq<char>, Seq<char>)>::empty(),
        });
        let ps = match params {
            Some(ps) => ps,
            None => StrMap::new(),
        };
        proof {
            assert(ps@ =~= pview);
        }
        let property = Property {
            name: "DTSTAMP".to_owned(),
            params: ps,
            raw_value: value.into_raw(),
            prop_group: None,
        };
        proof {
            crate::strmap::lemma_map_insert_sorted(old(self)@.props, "DTSTAMP"@, seq![property@]);
        }
        self.0.set(property);
    }

    /// Sets the `UID` property; older values are dropped silently.
    pub fn set_uid(&mut self, value: Uid, params: Option<Params>)
        requires
            old(self).wf(),
        ensures
            final(self).wf(),
            final(self)@.name == old(self)@.name,
            final(self)@.subs == old(self)@.subs,
            final(self)@.props == map_insert(
                old(self)@.props,
                "UID"@,
                seq![
                    (PropModel {
                        group: None,
                        name: "UID"@,
                        params: match params {
                            Some(ps) => ps@,
                            None => Seq::empty(),
                        },
                        value: value@.0,
                    }),
                ],
            ),
    {
        let ghost pview = (match params {
            Some(ref ps2) => ps2@,
            None => Seq::<(Seq<char>, Seq<char>)>::empty(),
        });
        let ps = match params {
            Some(ps) => ps,
            None => StrMap::new(),
        };
        proof {
            assert(ps@ =~= pview);
        }
        let property = Property {
            name: "UID".to_owned(),
            params: ps,
            raw_value: value.into_raw(),
            prop_group: None,
        };
        proof {
            crate::strmap::lemma_map_insert_sorted(old(self)@.props, "UID"@, seq![property@]);
        }
        self.0.set(property);
    }

    /// Sets the `DESCRIPTION` property; older values are dropped silently.
    pub fn set_description(&mut self, value: Description, params: Option<Params>)
        requires
            old(self).wf(),
        ensures
            final(self).wf(),
            final(self)@.name == old(self)@.name,
            final(self)@.subs == old(self)@.subs,
            final(self)@.props == map_insert(
                old(self)@.props,
                "DESCRIPTION"@,
                seq![
                    (PropModel {
                        group: None,
                        name: "DESCRIPTION"@,
                        params: match params {
                            Some(ps) => ps@,
                            None => Seq::empty(),
                        },
                        value: value@.0,
                    }),
                ],
            ),
    {
        let ghost pview = (match params {
            Some(ref ps2) => ps2@,
            None => Seq::<(Seq<char>, Seq<char>)>::empty(),
        });
        let ps = match params {
            Some(ps) => ps,
            None => StrMap::new(),
        };
        proof {
            assert(ps@ =~= pview);
        }
        let property = Property {
            name: "DESCRIPTION".to_owned(),
            params: ps,
            raw_value: value.into_raw(),
            prop_group: None,
        };
        proof {
            crate::strmap::lemma_map_insert_sorted(old(self)@.props, "DESCRIPTION"@, seq![property@]);
        }
        self.0.set(property);
    }

    /// Sets the `SUMMARY` property; older values are dropped silently.
    pub fn set_summary(&mut self, value: Summary, params: Option<Params>)
        requires
            old(self).wf(),
        ensures
            final(self).wf(),
            final(self)@.name == old(self)@.name,
            final(self)@.subs == old(self)@.subs,
            final(self)@.props == map_insert(
                old(self)@.props,
                "SUMMARY"@,
                seq![
                    (PropModel {
                        group: None,
                        name: "SUMMARY"@,
                        params: match params {
                            Some(ps) => ps@,
                            None => Seq::empty(),
                        },
                        value: value@.0,
                    }),
                ],
            ),
    {
        let ghost pview = (match params {
            Some(ref ps2) => ps2@,
            None => Seq::<(Seq<char>, Seq<char>)>::empty(),
        });
        let ps = match params {
            Some(ps) => ps,
            None => StrMap::new(),
        };
        proof {
            assert(ps@ =~= pview);
        }
        let property = Property {
            name: "SUMMARY".to_owned(),
            params: ps,
            raw_value: value.into_raw(),
            prop_group: None,
        };
        proof {
            crate::strmap::lemma_map_insert_sorted(old(self)@.props, "SUMMARY"@, seq![property@]);
        }
        self.0.set(property);
    }

    /// Sets the `URL` property; older values are dropped silently.
    pub fn set_url(&mut self, value: Url, params: Option<Params>)
        requires
            old(self).wf(),
        ensures
            final(self).wf(),
            final(self)@.name == old(self)@.name,
            final(self)@.subs == old(self)@.subs,
            final(self)@.props == map_insert(
                old(self)@.props,
                "URL"@,
                seq![
                    (PropModel {
                        group: None,
                        name: "URL"@,
                        params: match params {
                            Some(ps) => ps@,
                            None => Seq::empty(),
                        },
                        value: value@.0,
                    }),
                ],
            ),
    {
        let ghost pview = (match params {
            Some(ref ps2) => ps2@,
            None => Seq::<(Seq<char>, Seq<char>)>::empty(),
        });
        let ps = match params {
            Some(ps) => ps,
            None => StrMap::new(),
        };
        proof {
            assert(ps@ =~= pview);
        }
        let property = Property {
            name: "URL".to_owned(),
            params: ps,
            raw_value: value.into_raw(),
            prop_group: None,
        };
        proof {
            crate::strmap::lemma_map_insert_sorted(old(self)@.props, "URL"@, seq![property@]);
        }
        self.0.set(property);
    }

    /// Sets the `LOCATION` property; older values are dropped silently.
    pub fn set_location(&mut self, value: Location, params: Option<Params>)
        requires
            old(self).wf(),
        ensures
            final(self).wf(),
            final(self)@.name == old(self)@.name,
            final(self)@.subs == old(self)@.subs,
            final(self)@.props == map_insert(
                old(self)@.props,
                "LOCATION"@,
                seq![
                    (PropModel {
                        group: None,
                        name: "LOCATION"@,
                        params: match params {
                            Some(ps) => ps@,
                            None => Seq::empty(),
                        },
                        value: value@.0,
                    }),
                ],
            ),
    {
        let ghost pview = (match params {
            Some(ref ps2) => ps2@,
            None => Seq::<(Seq<char>, Seq<char>)>::empty(),
        });
        let ps = match params {
            Some(ps) => ps,
            None => StrMap::new(),
        };
        proof {
            assert(ps@ =~= pview);
        }
        let property = Property {
            name: "LOCATION".to_owned(),
            params: ps,
            raw_value: value.into_raw(),
            prop_group: None,
        };
        proof {
            crate::strmap::lemma_map_insert_sorted(old(self)@.props, "LOCATION"@, seq![property@]);
        }
        self.0.set(property);
    }

    /// Sets the `CLASS` property; older values are dropped silently.
    pub fn set_class(&mut self, value: Class, params: Option<Params>)
        requires
            old(self).wf(),
        ensures
            final(self).wf(),
            final(self)@.name == old(self)@.name,
            final(self)@.subs == old(self)@.subs,
            final(self)@.props == map_insert(
                old(self)@.props,
                "CLASS"@,
                seq![
                    (PropModel {
                        group: None,
                        name: "CLASS"@,
                        params: match params {
                            Some(ps) => ps@,
                            None => Seq::empty(),
                        },
                        value: value@.0,
                    }),
                ],
            ),
    {
        let ghost pview = (match params {
            Some(ref ps2) => ps2@,
            None => Seq::<(Seq<char>, Seq<char>)>::empty(),
        });
        let ps = match params {
            Some(ps) => ps,
            None => StrMap::new(),
        };
        proof {
            assert(ps@ =~= pview);
        }
        let property = Property {
            name: "CLASS".to_owned(),
            params: ps,
            raw_value: value.into_raw(),
            prop_group: None,
        };
        proof {
            crate::strmap::lemma_map_insert_sorted(old(self)@.props, "CLASS"@, seq![property@]);
        }
        self.0.set(property);
    }

    /// Sets the `CATEGORIES` property; older values are dropped silently.
    pub fn set_categories(&mut self, value: Categories, params: Option<Params>)
        requires
            old(self).wf(),
        ensures
            final(self).wf(),
            final(self)@.name == old(self)@.name,
            final(self)@.subs == old(self)@.subs,
            final(self)@.props == map_insert(
                old(self)@.props,
                "CATEGORIES"@,
                seq![
                    (PropModel {
                        group: None,
                        name: "CATEGORIES"@,
                        params: match params {
                            Some(ps) => ps@,
                            None => Seq::empty(),
                        },
                        value: value@.0,
                    }),
                ],
            ),
    {
        let ghost pview = (match params {
            Some(ref ps2) => ps2@,
            None => Seq::<(Seq<char>, Seq<char>)>::empty(),
        });
        let ps = match params {
            Some(ps) => ps,
            None => StrMap::new(),
        };
        proof {
            assert(ps@ =~= pview);
        }
        let property = Property {
            name: "CATEGORIES".to_owned(),
            params: ps,
            raw_value: value.into_raw(),
            prop_group: None,
        };
        proof {
            crate::strmap::lemma_map_insert_sorted(old(self)@.props, "CATEGORIES"@, seq![property@]);
        }
        self.0.set(property);
    }

    /// Sets the `TRANSP` property; older values are dropped silently.
    pub fn set_transp(&mut self, value: Transp, params: Option<Params>)
        requires
            old(self).wf(),
        ensures
            final(self).wf(),
            final(self)@.name == old(self)@.name,
            final(self)@.subs == old(self)@.subs,
            final(self)@.props == map_insert(
                old(self)@.props,
                "TRANSP"@,
                seq![
                    (PropModel {
                        group: None,
                        name: "TRANSP"@,
                        params: match params {
                            Some(ps) => ps@,
                            None => Seq::empty(),
                        },
                        value: value@.0,
                    }),
                ],
            ),
    {
        let ghost pview = (match params {
            Some(ref ps2) => ps2@,
            None => Seq::<(Seq<char>, Seq<char>)>::empty(),
        });
        let ps = match params {
            Some(ps) => ps,
            None => StrMap::new(),
        };
        proof {
            assert(ps@ =~= pview);
        }
        let property = Property {
            name: "TRANSP".to_owned(),
            params: ps,
            raw_value: value.into_raw(),
            prop_group: None,
        };
        proof {
            crate::strmap::lemma_map_insert_sorted(old(self)@.props, "TRANSP"@, seq![property@]);
        }
        self.0.set(property);
    }

    /// Sets the `RRULE` property; older values are dropped silently.
    pub fn set_rrule(&mut self, value: Rrule, params: Option<Params>)
        requires
            old(self).wf(),
        ensures
            final(self).wf(),
            final(self)@.name == old(self)@.name,
            final(self)@.subs == old(self)@.subs,
            final(self)@.props == map_insert(
                old(self)@.props,
                "RRULE"@,
                seq![
                    (PropModel {
                        group: None,
                        name: "RRULE"@,
                        params: match params {
                            Some(ps) => ps@,
                            None => Seq::empty(),
                        },
                        value: value@.0,
                    }),
                ],
            ),
    {
        let ghost pview = (match params {
            Some(ref ps2) => ps2@,
            None => Seq::<(Seq<char>, Seq<char>)>::empty(),
        });
        let ps = match params {
            Some(ps) => ps,
            None => StrMap::new(),
        };
        proof {
            assert(ps@ =~= pview);
        }
        let property = Property {
            name: "RRULE".to_owned(),
            params: ps,
            raw_value: value.into_raw(),
            prop_group: None,
        };
        proof {
            crate::strmap::lemma_map_insert_sorted(old(self)@.props, "RRULE"@, seq![property@]);
        }
        self.0.set(property);
    }

    /// Chainable: appends a `DTEND` property; older values are kept.
    pub fn with_dtend(self, value: Dtend, params: Option<Params>) -> (r: EventBuilder)
        requires
            self.wf(),
        ensures
            r.wf(),
            r@.name == self@.name,
            r@.subs == self@.subs,
            r@.props == props_push(
                self@.props,
                (PropModel {
                    group: None,
                    name: "DTEND"@,
                    params: match params {
                        Some(ps) => ps@,
                        None => Seq::empty(),
                    },
                    value: value@.0,
                }),
            ),
    {
        let ghost pview = (match params {
            Some(ref ps2) => ps2@,
            None => Seq::<(Seq<char>, Seq<char>)>::empty(),
        });
        let ps = match params {
            Some(ps) => ps,
            None => StrMap::new(),
        };
        proof {
            assert(ps@ =~= pview);
        }
        let property = Property {
            name: "DTEND".to_owned(),
            params: ps,
            raw_value: value.into_raw(),
            prop_group: None,
        };
        let mut this = self;
        this.0.push(property);
        this
    }

    /// Chainable: appends a `DTSTART` property; older values are kept.
    pub fn with_dtstart(self, value: Dtstart, params: Option<Params>) -> (r: EventBuilder)
        requires
            self.wf(),
        ensures
            r.wf(),
            r@.name == self@.name,
            r@.subs == self@.subs,
            r@.props == props_push(
                self@.props,
                (PropModel {
                    group: None,
                    name: "DTSTART"@,
                    params: match params {
                        Some(ps) => ps@,
                        None => Seq::empty(),
                    },
                    value: value@.0,
                }),
            ),
    {
        let ghost pview = (match params {
            Some(ref ps2) => ps2@,
            None => Seq::<(Seq<char>, Seq<char>)>::empty(),
        });
        let ps = match params {
            Some(ps) => ps,
            None => StrMap::new(),
        };
        proof {
            assert(ps@ =~= pview);
        }
        let property = Property {
            name: "DTSTART".to_owned(),
            params: ps,
            raw_value: value.into_raw(),
            prop_group: None,
        };
        let mut this = self;
        this.0.push(property);
        this
    }

    /// Chainable: appends a `DTSTAMP` property; older values are kept.
    pub fn with_dtstamp(self, value: Dtstamp, params: Option<Params>) -> (r: EventBuilder)
        requires
            self.wf(),
        ensures
            r.wf(),
            r@.name == self@.name,
            r@.subs == self@.subs,
            r@.props == props_push(
                self@.props,
                (PropModel {
                    group: None,
                    name: "DTSTAMP"@,
                    params: match params {
                        Some(ps) => ps@,
                        None => Seq::empty(),
                    },
                    value: value@.0,
                }),
            ),
    {
        let ghost pview = (match params {
            Some(ref ps2) => ps2@,
            None => Seq::<(Seq<char>, Seq<char>)>::empty(),
        });
        let ps = match params {
            Some(ps) => ps,
            None => StrMap::new(),
        };
        proof {
            assert(ps@ =~= pview);
        }
        let property = Property {
            name: "DTSTAMP".to_owned(),
            params: ps,
            raw_value: value.into_raw(),
            prop_group: None,
        };
        let mut this = self;
        this.0.push(property);
        this
    }

    /// Chainable: appends a `UID` property; older values are kept.
    pub fn with_uid(self, value: Uid, params: Option<Params>) -> (r: EventBuilder)
        requires
            self.wf(),
        ensures
            r.wf(),
            r@.name == self@.name,
            r@.subs == self@.subs,
            r@.props == props_push(
                self@.props,
                (PropModel {
                    group: None,
                    name: "UID"@,
                    params: match params {
                        Some(ps) => ps@,
                        None => Seq::empty(),
                    },
                    value: value@.0,
                }),
            ),
    {
        let ghost pview = (match params {
            Some(ref ps2) => ps2@,
            None => Seq::<(Seq<char>, Seq<char>)>::empty(),
        });
        let ps = match params {
            Some(ps) => ps,
            None => StrMap::new(),
        };
        proof {
            assert(ps@ =~= pview);
        }
        let property = Property {
            name: "UID".to_owned(),
            params: ps,
            raw_value: value.into_raw(),
            prop_group: None,
        };
        let mut this = self;
        this.0.push(property);
        this
    }

    /// Chainable: appends a `DESCRIPTION` property; older values are kept.
    pub fn with_description(self, value: Description, params: Option<Params>) -> (r: EventBuilder)
        requires
            self.wf(),
        ensures
            r.wf(),
            r@.name == self@.name,
            r@.subs == self@.subs,
            r@.props == props_push(
                self@.props,
                (PropModel {
                    group: None,
                    name: "DESCRIPTION"@,
                    params: match params {
                        Some(ps) => ps@,
                        None => Seq::empty(),
                    },
                    value: value@.0,
                }),
            ),
    {
        let ghost pview = (match params {
            Some(ref ps2) => ps2@,
            None => Seq::<(Seq<char>, Seq<char>)>::empty(),
        });
        let ps = match params {
            Some(ps) => ps,
            None => StrMap::new(),
        };
        proof {
            assert(ps@ =~= pview);
        }
        let property = Property {
            name: "DESCRIPTION".to_owned(),
            params: ps,
            raw_value: value.into_raw(),
            prop_group: None,
        };
        let mut this = self;
        this.0.push(property);
        this
    }

    /// Chainable: appends a `SUMMARY` property; older values are kept.
    pub fn with_summary(self, value: Summary, params: Option<Params>) -> (r: EventBuilder)
        requires
            self.wf(),
        ensures
            r.wf(),
            r@.name == self@.name,
            r@.subs == self@.subs,
            r@.props == props_push(
                self@.props,
                (PropModel {
                    group: None,
                    name: "SUMMARY"@,
                    params: match params {
                        Some(ps) => ps@,
                        None => Seq::empty(),
                    },
                    value: value@.0,
                }),
            ),
    {
        let ghost pview = (match params {
            Some(ref ps2) => ps2@,
            None => Seq::<(Seq<char>, Seq<char>)>::empty(),
        });
        let ps = match params {
            Some(ps) => ps,
            None => StrMap::new(),
        };
        proof {
            assert(ps@ =~= pview);
        }
        let property = Property {
            name: "SUMMARY".to_owned(),
            params: ps,
            raw_value: value.into_raw(),
            prop_group: None,
        };
        let mut this = self;
        this.0.push(property);
        this
    }

    /// Chainable: appends a `URL` property; older values are kept.
    pub fn with_url(self, value: Url, params: Option<Params>) -> (r: EventBuilder)
        requires
            self.wf(),
        ensures
            r.wf(),
            r@.name == self@.name,
            r@.subs == self@.subs,
            r@.props == props_push(
                self@.props,
                (PropModel {
                    group: None,
                    name: "URL"@,
                    params: match params {
                        Some(ps) => ps@,
                        None => Seq::empty(),
                    },
                    value: value@.0,
                }),
            ),
    {
        let ghost pview = (match params {
            Some(ref ps2) => ps2@,
            None => Seq::<(Seq<char>, Seq<char>)>::empty(),
        });
        let ps = match params {
            Some(ps) => ps,
            None => StrMap::new(),
        };
        proof {
            assert(ps@ =~= pview);
        }
        let property = Property {
            name: "URL".to_owned(),
            params: ps,
            raw_value: value.into_raw(),
            prop_group: None,
        };
        let mut this = self;
        this.0.push(property);
        this
    }

    /// Chainable: appends a `LOCATION` property; older values are kept.
    pub fn with_location(self, value: Location, params: Option<Params>) -> (r: EventBuilder)
        requires
            self.wf(),
        ensures
            r.wf(),
            r@.name == self@.name,
            r@.subs == self@.subs,
            r@.props == props_push(
                self@.props,
                (PropModel {
                    group: None,
                    name: "LOCATION"@,
                    params: match params {
                        Some(ps) => ps@,
                        None => Seq::empty(),
                    },
                    value: value@.0,
                }),
            ),
    {
        let ghost pview = (match params {
            Some(ref ps2) => ps2@,
            None => Seq::<(Seq<char>, Seq<char>)>::empty(),
        });
        let ps = match params {
            Some(ps) => ps,
            None => StrMap::new(),
        };
        proof {
            assert(ps@ =~= pview);
        }
        let property = Property {
            name: "LOCATION".to_owned(),
            params: ps,
            raw_value: value.into_raw(),
            prop_group: None,
        };
        let mut this = self;
        this.0.push(property);
        this
    }

    /// Chainable: appends a `CLASS` property; older values are kept.
    pub fn with_class(self, value: Class, params: Option<Params>) -> (r: EventBuilder)
        requires
            self.wf(),
        ensures
            r.wf(),
            r@.name == self@.name,
            r@.subs == self@.subs,
            r@.props == props_push(
                self@.props,
                (PropModel {
                    group: None,
                    name: "CLASS"@,
                    params: match params {
                        Some(ps) => ps@,
                        None => Seq::empty(),
                    },
                    value: value@.0,
                }),
            ),
    {
        let ghost pview = (match params {
            Some(ref ps2) => ps2@,
            None => Seq::<(Seq<char>, Seq<char>)>::empty(),
        });
        let ps = match params {
            Some(ps) => ps,
            None => StrMap::new(),
        };
        proof {
            assert(ps@ =~= pview);
        }
        let property = Property {
            name: "CLASS".to_owned(),
            params: ps,
            raw_value: value.into_raw(),
            prop_group: None,
        };
        let mut this = self;
        this.0.push(property);
        this
    }

    /// Chainable: appends a `CATEGORIES` property; older values are kept.
    pub fn with_categories(self, value: Categories, params: Option<Params>) -> (r: EventBuilder)
        requires
            self.wf(),
        ensures
            r.wf(),
            r@.name == self@.name,
            r@.subs == self@.subs,
            r@.props == props_push(
                self@.props,
                (PropModel {
                    group: None,
                    name: "CATEGORIES"@,
                    params: match params {
                        Some(ps) => ps@,
                        None => Seq::empty(),
                    },
                    value: value@.0,
                }),
            ),
    {
        let ghost pview = (match params {
            Some(ref ps2) => ps2@,
            None => Seq::<(Seq<char>, Seq<char>)>::empty(),
        });
        let ps = match params {
            Some(ps) => ps,
            None => StrMap::new(),
        };
        proof {
            assert(ps@ =~= pview);
        }
        let property = Property {
            name: "CATEGORIES".to_owned(),
            params: ps,
            raw_value: value.into_raw(),
            prop_group: None,
        };
        let mut this = self;
        this.0.push(property);
        this
    }

    /// Chainable: appends a `TRANSP` property; older values are kept.
    pub fn with_transp(self, value: Transp, params: Option<Params>) -> (r: EventBuilder)
        requires
            self.wf(),
        ensures
            r.wf(),
            r@.name == self@.name,
            r@.subs == self@.subs,
            r@.props == props_push(
                self@.props,
                (PropModel {
                    group: None,
                    name: "TRANSP"@,
                    params: match params {
                        Some(ps) => ps@,
                        None => Seq::empty(),
                    },
                    value: value@.0,
                }),
            ),
    {
        let ghost pview = (match params {
            Some(ref ps2) => ps2@,
            None => Seq::<(Seq<char>, Seq<char>)>::empty(),
        });
        let ps = match params {
            Some(ps) => ps,
            None => StrMap::new(),
        };
        proof {
            assert(ps@ =~= pview);
        }
        let property = Property {
            name: "TRANSP".to_owned(),
            params: ps,
            raw_value: value.into_raw(),
            prop_group: None,
        };
        let mut this = self;
        this.0.push(property);
        this
    }

    /// Chainable: appends a `RRULE` property; older values are kept.
    pub fn with_rrule(self, value: Rrule, params: Option<Params>) -> (r: EventBuilder)
        requires
            self.wf(),
        ensures
            r.wf(),
            r@.name == self@.name,
            r@.subs == self@.subs,
            r@.props == props_push(
                self@.props,
                (PropModel {
                    group: None,
                    name: "RRULE"@,
                    params: match params {
                        Some(ps) => ps@,
                        None => Seq::empty(),
                    },
                    value: value@.0,
                }),
            ),
    {
        let ghost pview = (match params {
            Some(ref ps2) => ps2@,
            None => Seq::<(Seq<char>, Seq<char>)>::empty(),
        });
        let ps = match params {
            Some(ps) => ps,
            None => StrMap::new(),
        };
        proof {
            assert(ps@ =~= pview);
        }
        let property = Property {
            name: "RRULE".to_owned(),
            params: ps,
            raw_value: value.into_raw(),
            prop_group: None,
        };
        let mut this = self;
        this.0.push(property);
        this
    }
}

} // verus!
