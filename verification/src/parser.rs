//! The parser: an explicit cursor over the input characters, with
//! speculative parsing done by saving and restoring the cursor position.
//!
//! Every consuming method is specified against the grammar functions of
//! [`crate::grammar`]: what it returns and where it leaves the cursor are
//! exactly what the grammar says for the position it started from.

use vstd::prelude::*;
use vstd::std_specs::vec::vec_index;
use vstd::string::StringExecFns;

use crate::chars::chars_to_vec;
use crate::chars::is_name_char;
use crate::chars::is_qsafe_char;
use crate::chars::name_char;
use crate::chars::push_char;
use crate::chars::qsafe_char;
use crate::chars::str_eq;
use crate::grammar::is_unquoted_char;
use crate::strmap::entries_sorted;
use crate::component::lemma_props_of_list_push;
use crate::component::model_wf;
use crate::component::props_of_list;
use crate::component::CompModel;
use crate::component::Component;
use crate::error::ParseError;
use crate::grammar::advance;
use crate::grammar::at_eol;
use crate::grammar::clip_at;
use crate::grammar::expected_char_desc;
use crate::grammar::sp_comp_err;
use crate::grammar::sp_items_err;
use crate::grammar::sp_param_err_desc;
use crate::grammar::sp_property_err_desc;
use crate::grammar::sp_property_err_pos;
use crate::grammar::twhile_end;
use crate::grammar::lemma_advance_snoc;
use crate::grammar::lemma_params_of_push;
use crate::grammar::lemma_sp_params_step;
use crate::grammar::lemma_lh;
use crate::grammar::lemma_sp_component;
use crate::grammar::lemma_sp_group;
use crate::grammar::lemma_sp_name;
use crate::grammar::lemma_sp_param;
use crate::grammar::lemma_sp_params;
use crate::grammar::lemma_sp_property;
use crate::grammar::lemma_sp_value;
use crate::grammar::lemma_stream_step;
use crate::grammar::lemma_twhile;
use crate::grammar::lemma_twhile_characterize;
use crate::grammar::lh;
use crate::grammar::params_of;
use crate::grammar::skip_eols;
use crate::grammar::sp_component;
use crate::grammar::sp_group;
use crate::grammar::sp_items;
use crate::grammar::sp_name;
use crate::grammar::sp_param;
use crate::grammar::sp_param_value;
use crate::grammar::sp_params;
use crate::grammar::sp_property;
use crate::grammar::sp_value;
use crate::grammar::stream;
use crate::property::Params;
use crate::property::PropModel;
use crate::property::Property;
use crate::strmap::StrMap;

verus! {

broadcast use {vstd::seq::group_seq_axioms, vstd::std_specs::vec::group_vec_axioms};

/// The parser state: the input characters and the cursor position.
pub struct Parser {
    /// The input, as its sequence of characters.
    pub input: Vec<char>,
    /// The cursor: an index into `input`.
    pub pos: usize,
}

impl Parser {
    /// The cursor sits inside the input (one past the end included).
    pub open spec fn wf(&self) -> bool {
        self.pos <= self.input@.len()
    }

    /// A parser at the start of the given text.
    pub fn new(input: &str) -> (p: Parser)
        ensures
            p.input@ == input@,
            p.pos == 0,
            p.wf(),
    {
        Parser { input: chars_to_vec(input), pos: 0 }
    }

    /// Whether the raw input is exhausted. Folding never changes this test:
    /// folds only remove content before the end.
    pub fn eof(&self) -> (r: bool)
        ensures
            r == (self.pos >= self.input@.len()),
    {
        self.pos >= self.input.len()
    }

    /// Looks ahead for the next logical character at the given offset from
    /// the cursor, returning it together with the increment that would
    /// consume it; `None` at the end of the input.
    fn peek_at(&self, at: usize) -> (r: Option<(char, usize)>)
        requires
            self.pos + at <= self.input@.len(),
        ensures
            match lh(self.input@, self.pos + at) {
                None => r is None,
                Some((c, j)) => r == Some((c, (j - self.pos) as usize)),
            },
        decreases self.input@.len() - (self.pos + at),
    {
        let ghost s = self.input@;
        let n = self.input.len();
        if self.pos + at >= n {
            return None;
        }
        let c = *vec_index(&self.input, self.pos + at);
        if c == '\r' {
            self.peek_at(at + 1)
        } else if c == '\n' {
            proof {
                lemma_lh(s, self.pos + at + 1);
            }
            match self.peek_at(at + 1) {
                Some((c2, off)) => {
                    if c2 == ' ' || c2 == '\t' {
                        proof {
                            assert(clip_at(
                                self.pos + off,
                                self.pos + at + 2,
                                s.len() as int,
                            ) == self.pos + off);
                        }
                        self.peek_at(off)
                    } else {
                        Some(('\n', at + 1))
                    }
                }
                None => Some(('\n', at + 1)),
            }
        } else {
            Some((c, at + 1))
        }
    }

    /// Looks ahead for the next logical character at the cursor.
    #[inline]
    fn peek(&self) -> (r: Option<(char, usize)>)
        requires
            self.wf(),
        ensures
            match lh(self.input@, self.pos as int) {
                None => r is None,
                Some((c, j)) => r == Some((c, (j - self.pos) as usize)),
            },
    {
        self.peek_at(0)
    }

    /// Consumes and returns the next logical character.
    pub fn consume_char(&mut self) -> (r: Option<char>)
        requires
            old(self).wf(),
        ensures
            final(self).input@ == old(self).input@,
            final(self).wf(),
            match lh(old(self).input@, old(self).pos as int) {
                None => r is None && final(self).pos == old(self).pos,
                Some((c, j)) => r == Some(c) && final(self).pos == j,
            },
    {
        let n = self.input.len();
        proof {
            lemma_lh(self.input@, self.pos as int);
            assert(self.input@.len() == n);
        }
        match self.peek() {
            Some((c, off)) => {
                self.pos = self.pos + off;
                Some(c)
            }
            None => None,
        }
    }

    /// Consumes the next logical character only if it is `c`; reports
    /// whether it did.
    pub fn consume_only_char(&mut self, c: char) -> (r: bool)
        requires
            old(self).wf(),
        ensures
            final(self).input@ == old(self).input@,
            final(self).wf(),
            match lh(old(self).input@, old(self).pos as int) {
                None => !r && final(self).pos == old(self).pos,
                Some((d, j)) => {
                    if d == c {
                        r && final(self).pos == j
                    } else {
                        !r && final(self).pos == old(self).pos
                    }
                },
            },
    {
        let n = self.input.len();
        proof {
            lemma_lh(self.input@, self.pos as int);
            assert(self.input@.len() == n);
        }
        match self.peek() {
            Some((d, off)) => {
                if d == c {
                    self.pos = self.pos + off;
                    true
                } else {
                    false
                }
            }
            None => false,
        }
    }

    /// Checks that the next logical character is `c`, without consuming;
    /// the error carries the character actually found.
    fn assert_char(&self, c: char) -> (r: Result<(), ParseError>)
        requires
            self.wf(),
        ensures
            match lh(self.input@, self.pos as int) {
                Some((d, j)) => {
                    if d == c {
                        r is Ok
                    } else {
                        r matches Err(e) && e@ == expected_char_desc(
                            c,
                            lh(self.input@, self.pos as int),
                        )
                    }
                },
                None => r matches Err(e) && e@ == expected_char_desc(
                    c,
                    lh(self.input@, self.pos as int),
                ),
            },
    {
        let real_c = match self.peek() {
            Some((x, off)) => x,
            None => {
                let mut m = "Expected ".to_owned();
                push_char(&mut m, c);
                m.append(", found EOL");
                proof {
                    assert(m@ =~= "Expected "@ + seq![c] + ", found EOL"@);
                }
                return Err(ParseError::new(m));
            }
        };
        if real_c != c {
            let mut m = "Expected ".to_owned();
            push_char(&mut m, c);
            m.append(", found ");
            push_char(&mut m, real_c);
            proof {
                assert(m@ =~= "Expected "@ + seq![c] + ", found "@ + seq![real_c]);
            }
            return Err(ParseError::new(m));
        }
        Ok(())
    }

    /// Consumes one end of line: the next logical character must be a
    /// newline. On failure the cursor is restored.
    fn consume_eol(&mut self) -> (r: Result<(), ParseError>)
        requires
            old(self).wf(),
        ensures
            final(self).input@ == old(self).input@,
            final(self).wf(),
            match lh(old(self).input@, old(self).pos as int) {
                Some((c, j)) => {
                    if c == '\n' {
                        r is Ok && final(self).pos == j
                    } else {
                        r matches Err(e) && e@ == "Expected EOL."@ && final(self).pos == old(
                            self,
                        ).pos
                    }
                },
                None => r matches Err(e) && e@ == "Expected EOL."@ && final(self).pos == old(
                    self,
                ).pos,
            },
    {
        let ghost s = self.input@;
        let start_pos = self.pos;
        proof {
            lemma_lh(s, start_pos as int);
        }
        let consumed = match self.consume_char() {
            Some(c0) => {
                if c0 == '\n' {
                    true
                } else if c0 == '\r' {
                    // unreachable: the logical stream never yields a CR
                    match self.consume_char() {
                        Some(c1) => c1 == '\n',
                        None => false,
                    }
                } else {
                    false
                }
            }
            None => false,
        };
        if consumed {
            Ok(())
        } else {
            self.pos = start_pos;
            Err(ParseError::new("Expected EOL.".to_owned()))
        }
    }

    /// Consumes the line termination after a property: nothing at the end of
    /// the input, otherwise one mandatory end of line and then any number of
    /// blank lines.
    fn sloppy_terminate_line(&mut self) -> (r: Result<(), ParseError>)
        requires
            old(self).wf(),
        ensures
            final(self).input@ == old(self).input@,
            final(self).wf(),
            if old(self).pos >= old(self).input@.len() || at_eol(
                old(self).input@,
                old(self).pos as int,
            ) {
                r is Ok && final(self).pos == skip_eols(old(self).input@, old(self).pos as int)
            } else {
                r matches Err(e) && e@ == "Expected EOL."@ && final(self).pos == old(self).pos
            },
    {
        let ghost s = self.input@;
        let ghost p0 = self.pos as int;
        if !self.eof() {
            proof {
                lemma_lh(s, p0);
            }
            match self.consume_eol() {
                Err(e) => {
                    return Err(e);
                }
                Ok(()) => {}
            }
            loop
                invariant
                    self.wf(),
                    self.input@ == s,
                    skip_eols(s, p0) == skip_eols(s, self.pos as int),
                ensures
                    self.wf(),
                    self.input@ == s,
                    self.pos == skip_eols(s, p0),
                decreases s.len() - self.pos,
            {
                let ghost cur = self.pos as int;
                proof {
                    lemma_lh(s, cur);
                }
                match self.consume_eol() {
                    Ok(()) => {
                        proof {
                            assert(clip_at(
                                self.pos as int,
                                cur + 1,
                                s.len() as int,
                            ) == self.pos as int);
                        }
                    }
                    Err(_) => {
                        proof {
                            assert(skip_eols(s, cur) == cur);
                        }
                        break ;
                    }
                }
            }
        } else {
            proof {
                assert(skip_eols(s, p0) == p0);
            }
        }
        Ok(())
    }

    /// Consumes logical characters while `test` accepts them, returning the
    /// accumulated (already unfolded) text: a prefix of the logical stream
    /// whose characters `test` accepted, stopped only by the end of the
    /// stream or by a character `test` rejected.
    pub fn consume_while<F: Fn(char) -> bool>(&mut self, test: F) -> (r: String)
        requires
            old(self).wf(),
            forall|c: char| #[trigger] test.requires((c,)),
        ensures
            final(self).input@ == old(self).input@,
            final(self).wf(),
            r@.len() <= stream(old(self).input@, old(self).pos as int).len(),
            r@ == stream(old(self).input@, old(self).pos as int).take(r@.len() as int),
            forall|k: int|
                0 <= k < r@.len() ==> call_ensures(
                    test,
                    ((stream(old(self).input@, old(self).pos as int)[k]),),
                    true,
                ),
            r@.len() < stream(old(self).input@, old(self).pos as int).len() ==> call_ensures(
                test,
                ((stream(old(self).input@, old(self).pos as int)[r@.len() as int]),),
                false,
            ),
            final(self).pos == advance(old(self).input@, old(self).pos as int, r@.len() as int),
    {
        let ghost s = self.input@;
        let ghost p0 = self.pos as int;
        let ghost st = stream(s, p0);
        let total = self.input.len();
        let mut res = String::new();
        let ghost mut cnt: int = 0;
        proof {
            assert(s.len() == total);
            assert(st.take(0) =~= Seq::<char>::empty());
            assert(st.skip(0) =~= st);
        }
        loop
            invariant
                self.wf(),
                self.input@ == s,
                s.len() <= usize::MAX,
                st == stream(s, p0),
                0 <= cnt <= st.len(),
                res@.len() == cnt,
                res@ == st.take(cnt),
                forall|k: int| 0 <= k < cnt ==> call_ensures(test, ((st[k]),), true),
                self.pos == advance(s, p0, cnt),
                stream(s, self.pos as int) == st.skip(cnt),
                forall|c: char| #[trigger] test.requires((c,)),
            ensures
                self.wf(),
                self.input@ == s,
                res@.len() <= st.len(),
                res@ == st.take(res@.len() as int),
                forall|k: int| 0 <= k < res@.len() ==> call_ensures(test, ((st[k]),), true),
                res@.len() < st.len() ==> call_ensures(test, ((st[res@.len() as int]),), false),
                self.pos == advance(s, p0, res@.len() as int),
            decreases s.len() - self.pos,
        {
            let ghost cur = self.pos as int;
            if self.eof() {
                proof {
                    assert(lh(s, cur) is None);
                    assert(stream(s, cur).len() == 0);
                    assert(cnt == st.len());
                }
                break ;
            }
            proof {
                lemma_lh(s, cur);
            }
            match self.peek() {
                Some((c, off)) => {
                    proof {
                        lemma_stream_step(s, cur);
                        assert(st.skip(cnt)[0] == c);
                        assert(st[cnt] == c);
                    }
                    let keep = test(c);
                    if keep {
                        push_char(&mut res, c);
                        self.pos = self.pos + off;
                        proof {
                            lemma_advance_snoc(s, p0, cnt);
                            assert((seq![c] + stream(s, self.pos as int)).drop_first() =~= stream(
                                s,
                                self.pos as int,
                            ));
                            assert(stream(s, self.pos as int) == stream(s, cur).drop_first());
                            assert(stream(s, cur).drop_first() =~= st.skip(cnt + 1));
                            cnt = cnt + 1;
                            assert(res@ =~= st.take(cnt));
                        }
                    } else {
                        break ;
                    }
                }
                None => {
                    proof {
                        assert(stream(s, cur).len() == 0);
                        assert(cnt == st.len());
                    }
                    break ;
                }
            }
        }
        res
    }

    /// Consumes a property, group or parameter name: a nonempty run of
    /// letters, digits and hyphens.
    fn consume_property_name(&mut self) -> (r: Result<String, ParseError>)
        requires
            old(self).wf(),
        ensures
            final(self).input@ == old(self).input@,
            final(self).wf(),
            match sp_name(old(self).input@, old(self).pos as int) {
                Some((t, j)) => r matches Ok(v) && v@ == t && final(self).pos == j,
                None => r matches Err(e) && e@ == "No property name found."@ && final(self).pos
                    == old(self).pos,
            },
    {
        let ghost s = self.input@;
        let ghost p0 = self.pos as int;
        let test = |x: char| -> (b: bool)
            ensures
                b == is_name_char(x),
            { name_char(x) };
        let rv = self.consume_while(test);
        proof {
            let n = rv@.len() as int;
            assert forall|k: int| 0 <= k < n implies is_name_char(stream(s, p0)[k]) by {
                assert(call_ensures(test, ((stream(s, p0)[k]),), true));
            }
            lemma_twhile_characterize(s, p0, |c: char| is_name_char(c), n);
        }
        if rv.as_str().is_empty() {
            Err(ParseError::new("No property name found.".to_owned()))
        } else {
            Ok(rv)
        }
    }

    /// Speculatively consumes a property group: a name committed by a
    /// following `.`. Anything else restores the cursor.
    fn consume_property_group(&mut self) -> (r: Result<String, ParseError>)
        requires
            old(self).wf(),
        ensures
            final(self).input@ == old(self).input@,
            final(self).wf(),
            match sp_group(old(self).input@, old(self).pos as int) {
                Some((g, j)) => r matches Ok(v) && v@ == g && final(self).pos == j,
                None => r is Err && final(self).pos == old(self).pos,
            },
    {
        let ghost s = self.input@;
        let start_pos = self.pos;
        let name = self.consume_property_name();
        let e = match name {
            Ok(name_v) => match self.assert_char('.') {
                Ok(_) => {
                    proof {
                        lemma_lh(s, self.pos as int);
                    }
                    self.consume_char();
                    return Ok(name_v);
                }
                Err(e) => e,
            },
            Err(e) => e,
        };
        self.pos = start_pos;
        Err(e)
    }

    /// Consumes a parameter name, wrapping the failure message.
    fn consume_param_name(&mut self) -> (r: Result<String, ParseError>)
        requires
            old(self).wf(),
        ensures
            final(self).input@ == old(self).input@,
            final(self).wf(),
            match sp_name(old(self).input@, old(self).pos as int) {
                Some((t, j)) => r matches Ok(v) && v@ == t && final(self).pos == j,
                None => r matches Err(e) && e@ == "No param name found: "@
                    + "No property name found."@ && final(self).pos == old(self).pos,
            },
    {
        match self.consume_property_name() {
            Ok(x) => Ok(x),
            Err(e) => {
                let mut m = "No param name found: ".to_owned();
                m.append(e.description().as_str());
                Err(ParseError::new(m))
            }
        }
    }

    /// Consumes a parameter value: quoted (the closing quote is required) or
    /// unquoted.
    fn consume_param_value(&mut self) -> (r: Result<String, ParseError>)
        requires
            old(self).wf(),
        ensures
            final(self).input@ == old(self).input@,
            final(self).wf(),
            match sp_param_value(old(self).input@, old(self).pos as int) {
                Some((v, e)) => r matches Ok(t) && t@ == v && final(self).pos == e,
                None => ({
                    let s0 = old(self).input@;
                    let j = lh(s0, old(self).pos as int)->Some_0.1;
                    r matches Err(e) && e@ == expected_char_desc(
                        '"',
                        lh(s0, twhile_end(s0, j, |c: char| is_qsafe_char(c))),
                    )
                }),
            },
    {
        let ghost s = self.input@;
        let ghost p0 = self.pos as int;
        if self.consume_only_char('"') {
            let ghost j = self.pos as int;
            let test = |x: char| -> (b: bool)
                ensures
                    b == is_qsafe_char(x),
                { qsafe_char(x) };
            let rv = self.consume_while(test);
            proof {
                let n = rv@.len() as int;
                assert forall|k: int| 0 <= k < n implies is_qsafe_char(stream(s, j)[k]) by {
                    assert(call_ensures(test, ((stream(s, j)[k]),), true));
                }
                lemma_twhile_characterize(s, j, |c: char| is_qsafe_char(c), n);
            }
            match self.assert_char('"') {
                Err(e) => {
                    return Err(e);
                }
                Ok(_) => {}
            }
            proof {
                lemma_lh(s, self.pos as int);
            }
            self.consume_char();
            Ok(rv)
        } else {
            let test = |x: char| -> (b: bool)
                ensures
                    b == is_unquoted_char(x),
                { qsafe_char(x) && x != ';' && x != ':' };
            let rv = self.consume_while(test);
            proof {
                let n = rv@.len() as int;
                assert forall|k: int| 0 <= k < n implies is_unquoted_char(stream(s, p0)[k]) by {
                    assert(call_ensures(test, ((stream(s, p0)[k]),), true));
                }
                lemma_twhile_characterize(s, p0, |c: char| is_unquoted_char(c), n);
            }
            Ok(rv)
        }
    }

    /// Consumes one `name[=value]` parameter. A failing value restores the
    /// cursor to just after the name.
    fn consume_param(&mut self) -> (r: Result<(String, String), ParseError>)
        requires
            old(self).wf(),
        ensures
            final(self).input@ == old(self).input@,
            final(self).wf(),
            match sp_param(old(self).input@, old(self).pos as int) {
                Some((nv, e)) => {
                    &&& r matches Ok(p)
                    &&& p.0@ == nv.0
                    &&& p.1@ == nv.1
                    &&& final(self).pos == e
                },
                None => {
                    &&& r matches Err(e)
                    &&& e@ == sp_param_err_desc(old(self).input@, old(self).pos as int)
                    &&& final(self).pos == (match sp_name(old(self).input@, old(self).pos as int) {
                        Some((t, k)) => k,
                        None => old(self).pos as int,
                    })
                },
            },
    {
        let ghost s = self.input@;
        let name = match self.consume_param_name() {
            Ok(x) => x,
            Err(e) => {
                return Err(e);
            }
        };
        let start_pos = self.pos;
        proof {
            lemma_lh(s, start_pos as int);
        }
        let value = if self.consume_only_char('=') {
            match self.consume_param_value() {
                Ok(x) => x,
                Err(e) => {
                    self.pos = start_pos;
                    return Err(e);
                }
            }
        } else {
            String::new()
        };
        Ok((name, value))
    }

    /// Consumes the parameter list: one parameter after each `;`, stopping
    /// at the first failure. Later values win over earlier ones under the
    /// same name.
    fn consume_params(&mut self) -> (r: Params)
        requires
            old(self).wf(),
        ensures
            final(self).input@ == old(self).input@,
            final(self).wf(),
            entries_sorted(r@),
            r@ == params_of(sp_params(old(self).input@, old(self).pos as int).0),
            final(self).pos == sp_params(old(self).input@, old(self).pos as int).1,
    {
        let ghost s = self.input@;
        let ghost p0 = self.pos as int;
        let mut rv: Params = StrMap::new();
        let ghost mut done: Seq<(Seq<char>, Seq<char>)> = Seq::empty();
        proof {
            assert(rv@ =~= params_of(done));
            assert(sp_params(s, p0).0 =~= done + sp_params(s, p0).0);
        }
        loop
            invariant_except_break
                p0 <= self.pos as int,
                sp_params(s, p0).0 == done + sp_params(s, self.pos as int).0,
                sp_params(s, p0).1 == sp_params(s, self.pos as int).1,
            invariant
                self.wf(),
                self.input@ == s,
                entries_sorted(rv@),
                rv@ == params_of(done),
            ensures
                self.wf(),
                self.input@ == s,
                entries_sorted(rv@),
                rv@ == params_of(sp_params(s, p0).0),
                self.pos == sp_params(s, p0).1,
            decreases s.len() - self.pos,
        {
            let ghost cur = self.pos as int;
            proof {
                lemma_lh(s, cur);
            }
            if !self.consume_only_char(';') {
                proof {
                    assert(sp_params(s, cur).0 =~= Seq::<(Seq<char>, Seq<char>)>::empty());
                    assert(done + sp_params(s, cur).0 =~= done);
                }
                break ;
            }
            proof {
                lemma_sp_params_step(s, cur);
            }
            let ghost j = lh(s, cur)->Some_0.1;
            match self.consume_param() {
                Ok((name, value)) => {
                    proof {
                        lemma_sp_param(s, j);
                        let nv = sp_param(s, j)->Some_0.0;
                        lemma_params_of_push(done, nv.0, nv.1);
                        assert(done + sp_params(s, cur).0 =~= done.push(nv) + sp_params(
                            s,
                            self.pos as int,
                        ).0);
                        done = done.push(nv);
                    }
                    rv.insert(name, value);
                }
                Err(_) => {
                    proof {
                        assert(sp_params(s, cur).0 =~= Seq::<(Seq<char>, Seq<char>)>::empty());
                        assert(done + sp_params(s, cur).0 =~= done);
                    }
                    break ;
                }
            }
        }
        rv
    }

    /// Consumes a property value: the rest of the logical line, plus its
    /// (sloppy) termination.
    fn consume_property_value(&mut self) -> (r: Result<String, ParseError>)
        requires
            old(self).wf(),
        ensures
            final(self).input@ == old(self).input@,
            final(self).wf(),
            match sp_value(old(self).input@, old(self).pos as int) {
                Some((v, e)) => r matches Ok(t) && t@ == v && final(self).pos == e,
                None => r matches Err(e) && e@ == "Expected EOL."@ && final(self).pos
                    == twhile_end(
                    old(self).input@,
                    old(self).pos as int,
                    |c: char| c != '\r' && c != '\n',
                ),
            },
    {
        let ghost s = self.input@;
        let ghost p0 = self.pos as int;
        let test = |x: char| -> (b: bool)
            ensures
                b == (x != '\r' && x != '\n'),
            { x != '\r' && x != '\n' };
        let rv = self.consume_while(test);
        proof {
            let n = rv@.len() as int;
            assert forall|k: int| 0 <= k < n implies (stream(s, p0)[k] != '\r' && stream(s, p0)[k]
                != '\n') by {
                assert(call_ensures(test, ((stream(s, p0)[k]),), true));
            }
            lemma_twhile_characterize(s, p0, |c: char| c != '\r' && c != '\n', n);
            lemma_twhile(s, p0, |c: char| c != '\r' && c != '\n');
        }
        match self.sloppy_terminate_line() {
            Err(e) => Err(e),
            Ok(()) => Ok(rv),
        }
    }

    /// Consumes one whole property line.
    pub fn consume_property(&mut self) -> (r: Result<Property, ParseError>)
        requires
            old(self).wf(),
        ensures
            final(self).input@ == old(self).input@,
            final(self).wf(),
            match sp_property(old(self).input@, old(self).pos as int) {
                Some((m, e)) => r matches Ok(p) && p@ == m && final(self).pos == e,
                None => {
                    &&& r matches Err(e)
                    &&& e@ == sp_property_err_desc(old(self).input@, old(self).pos as int)
                    &&& final(self).pos == sp_property_err_pos(
                        old(self).input@,
                        old(self).pos as int,
                    )
                },
            },
    {
        let ghost s = self.input@;
        let ghost p0 = self.pos as int;
        proof {
            lemma_sp_group(s, p0);
        }
        let group = match self.consume_property_group() {
            Ok(g) => Some(g),
            Err(_) => None,
        };
        let ghost i1 = self.pos as int;
        proof {
            lemma_sp_name(s, i1);
        }
        let name = match self.consume_property_name() {
            Ok(n) => n,
            Err(e) => {
                return Err(e);
            }
        };
        let ghost i2 = self.pos as int;
        proof {
            lemma_sp_params(s, i2);
        }
        let params = self.consume_params();
        let ghost i3 = self.pos as int;
        proof {
            lemma_lh(s, i3);
        }
        match self.assert_char(':') {
            Err(e) => {
                return Err(e);
            }
            Ok(_) => {}
        }
        self.consume_char();
        let ghost i4 = self.pos as int;
        proof {
            lemma_sp_value(s, i4);
        }
        let value = match self.consume_property_value() {
            Ok(v) => v,
            Err(e) => {
                return Err(e);
            }
        };
        let p = Property { name, params, raw_value: value, prop_group: group };
        proof {
            let m = sp_property(s, p0)->Some_0.0;
            assert(p@.group == m.group);
            assert(p@ == m);
        }
        Ok(p)
    }

    /// Consumes one whole component: a `BEGIN` property, its items, and the
    /// matching `END`. Every loop iteration consumes at least one logical
    /// character, so malformed nesting runs out of input and fails instead
    /// of looping.
    pub fn consume_component(&mut self) -> (r: Result<Component, ParseError>)
        requires
            old(self).wf(),
        ensures
            final(self).input@ == old(self).input@,
            final(self).wf(),
            match sp_component(old(self).input@, old(self).pos as int) {
                Some((m, e)) => {
                    &&& r matches Ok(c)
                    &&& c@ == m
                    &&& model_wf(c@)
                    &&& final(self).pos == e
                },
                None => {
                    &&& r matches Err(e)
                    &&& e@ == sp_comp_err(old(self).input@, old(self).pos as int).0
                    &&& final(self).pos == sp_comp_err(old(self).input@, old(self).pos as int).1
                },
            },
        decreases old(self).input@.len() - old(self).pos,
    {
        let ghost s = self.input@;
        let ghost p0 = self.pos as int;
        let start_pos = self.pos;
        proof {
            lemma_sp_property(s, p0);
        }
        let begin_prop = match self.consume_property() {
            Ok(p) => p,
            Err(e) => {
                return Err(e);
            }
        };
        if !str_eq(begin_prop.name.as_str(), "BEGIN") {
            self.pos = start_pos;
            return Err(ParseError::new("Expected BEGIN tag.".to_owned()));
        }
        let mut component = Component::new(begin_prop.raw_value.as_str());
        let ghost name = begin_prop.raw_value@;
        let ghost items_start = self.pos as int;
        let ghost mut done_props: Seq<PropModel> = Seq::empty();
        let ghost mut done_subs: Seq<CompModel> = Seq::empty();
        proof {
            assert(clip_at(items_start, p0 + 1, s.len() as int) == items_start);
            assert(component@.props =~= props_of_list(done_props));
            assert(component@.subs =~= done_subs);
            assert(sp_comp_err(s, p0) == sp_items_err(s, items_start, name, p0));
        }
        loop
            invariant_except_break
                start_pos == p0,
                p0 < self.pos as int,
                items_start <= s.len(),
                name == component@.name,
                match sp_items(s, self.pos as int, name) {
                    Some((ps, cs, e)) => sp_items(s, items_start, name) == Some(
                        ((done_props + ps, done_subs + cs, e)),
                    ),
                    None => sp_items(s, items_start, name) is None,
                },
                sp_comp_err(s, p0) == sp_items_err(s, self.pos as int, name, p0),
            invariant
                self.wf(),
                self.input@ == s,
                old(self).input@ == s,
                old(self).pos == p0,
                0 <= p0 <= s.len(),
                sp_property(s, p0) is Some,
                sp_property(s, p0)->Some_0.0.name == "BEGIN"@,
                sp_property(s, p0)->Some_0.0.value == name,
                sp_property(s, p0)->Some_0.1 == items_start,
                clip_at(items_start, p0 + 1, s.len() as int) == items_start,
                component.store_wf(),
                component@.name == name,
                component@.props == props_of_list(done_props),
                component@.subs == done_subs,
                forall|i: int| 0 <= i < done_subs.len() ==> model_wf(#[trigger] done_subs[i]),
            ensures
                self.wf(),
                self.input@ == s,
                component@.name == name,
                component.store_wf(),
                forall|i: int| 0 <= i < component@.subs.len() ==> model_wf(
                    #[trigger] component@.subs[i],
                ),
                sp_items(s, items_start, name) == Some(
                    ((done_props, done_subs, self.pos as int)),
                ),
                component@.props == props_of_list(done_props),
                component@.subs == done_subs,
            decreases s.len() - self.pos,
        {
            let previous_pos = self.pos;
            proof {
                lemma_sp_property(s, previous_pos as int);
            }
            let property = match self.consume_property() {
                Ok(p) => p,
                Err(e) => {
                    proof {
                        assert(sp_items_err(s, previous_pos as int, name, p0) == ((
                            sp_property_err_desc(s, previous_pos as int),
                            sp_property_err_pos(s, previous_pos as int),
                        )));
                    }
                    return Err(e);
                }
            };
            if str_eq(property.name.as_str(), "BEGIN") {
                self.pos = previous_pos;
                let sub = match self.consume_component() {
                    Ok(c) => c,
                    Err(e) => {
                        proof {
                            assert(sp_component(s, previous_pos as int) is None);
                            assert(sp_items_err(s, previous_pos as int, name, p0) == sp_comp_err(
                                s,
                                previous_pos as int,
                            ));
                        }
                        return Err(e);
                    }
                };
                let ghost subm = sub@;
                proof {
                    lemma_sp_component(s, previous_pos as int);
                    assert(clip_at(
                        self.pos as int,
                        previous_pos + 1,
                        s.len() as int,
                    ) == self.pos as int);
                }
                component.subcomponents.push(sub);
                proof {
                    assert(sp_items_err(s, previous_pos as int, name, p0) == sp_items_err(
                        s,
                        self.pos as int,
                        name,
                        p0,
                    ));
                    assert(component@.subs =~= done_subs.push(subm));
                    done_subs = done_subs.push(subm);
                    match sp_items(s, self.pos as int, name) {
                        Some((ps, cs, e)) => {
                            assert(done_props + ps =~= done_props + ps);
                            assert((done_subs.drop_last() + (seq![subm] + cs)) =~= (done_subs
                                + cs));
                        }
                        None => {}
                    }
                }
            } else if str_eq(property.name.as_str(), "END") {
                if !str_eq(property.raw_value.as_str(), component.name.as_str()) {
                    self.pos = start_pos;
                    let mut m = "Mismatched tags: BEGIN:".to_owned();
                    m.append(component.name.as_str());
                    m.append(" vs END:");
                    m.append(property.raw_value.as_str());
                    proof {
                        assert(sp_items_err(s, previous_pos as int, name, p0) == ((
                            "Mismatched tags: BEGIN:"@ + name + " vs END:"@
                                + property.raw_value@,
                            p0,
                        )));
                    }
                    return Err(ParseError::new(m));
                }
                proof {
                    assert(sp_items(s, previous_pos as int, name) == Some(
                        ((
                            Seq::<PropModel>::empty(),
                            Seq::<CompModel>::empty(),
                            self.pos as int,
                        )),
                    ));
                    assert(done_props + Seq::<PropModel>::empty() =~= done_props);
                    assert(done_subs + Seq::<CompModel>::empty() =~= done_subs);
                }
                break ;
            } else {
                let ghost pm = property@;
                proof {
                    lemma_props_of_list_push(done_props, pm);
                    assert(clip_at(
                        self.pos as int,
                        previous_pos + 1,
                        s.len() as int,
                    ) == self.pos as int);
                }
                component.push(property);
                proof {
                    assert(sp_items_err(s, previous_pos as int, name, p0) == sp_items_err(
                        s,
                        self.pos as int,
                        name,
                        p0,
                    ));
                    done_props = done_props.push(pm);
                    match sp_items(s, self.pos as int, name) {
                        Some((ps, cs, e)) => {
                            assert((done_props.drop_last() + (seq![pm] + ps)) =~= (done_props
                                + ps));
                        }
                        None => {}
                    }
                }
            }
        }
        proof {
            assert(sp_component(s, p0) == Some(((component@, self.pos as int))));
            assert(model_wf(component@));
        }
        Ok(component)
    }
}

} // verus!
