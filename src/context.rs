use vstd::prelude::*;

use handlebars::{Handlebars, RenderError};
use std::collections::BTreeMap;

use crate::error::RequestError;
use crate::param::KeyValue;
use crate::text::has_open_brace_pair;

verus! {

#[verifier::external_type_specification]
#[verifier::external_body]
pub struct ExHandlebars<'reg>(Handlebars<'reg>);

#[verifier::external_type_specification]
#[verifier::external_body]
pub struct ExRenderError(RenderError);

/// What a sequence of bindings means: each later binding of a name replaces an earlier one.
pub open spec fn bindings_of(s: Seq<(String, String)>) -> Map<Seq<char>, Seq<char>>
    decreases s.len(),
{
    if s.len() == 0 {
        Map::empty()
    } else {
        bindings_of(s.drop_last()).insert(s.last().0@, s.last().1@)
    }
}

/// The bindings that a list of seeded parameters makes, the last of equal names winning.
pub open spec fn seeded(params: Seq<KeyValue>) -> Map<Seq<char>, Seq<char>>
    decreases params.len(),
{
    if params.len() == 0 {
        Map::empty()
    } else {
        seeded(params.drop_last()).insert(params.last().0@, params.last().1@)
    }
}

proof fn lemma_bound_iff_listed(s: Seq<(String, String)>, k: Seq<char>)
    ensures
        bindings_of(s).contains_key(k) <==> exists|i: int| 0 <= i < s.len() && (#[trigger] s[i]).0@ == k,
    decreases s.len(),
{
    if s.len() > 0 {
        lemma_bound_iff_listed(s.drop_last(), k);
        if bindings_of(s.drop_last()).contains_key(k) {
            let i = choose|i: int| 0 <= i < s.drop_last().len() && (#[trigger] s.drop_last()[i]).0@ == k;
            assert(s[i] == s.drop_last()[i]);
        }
        if exists|i: int| 0 <= i < s.len() && (#[trigger] s[i]).0@ == k {
            let i = choose|i: int| 0 <= i < s.len() && (#[trigger] s[i]).0@ == k;
            if i < s.len() - 1 {
                assert(s.drop_last()[i] == s[i]);
            }
        }
    }
}

/// Relies on `Handlebars::render_template`: a template in which `{{` never occurs parses as raw
/// text, and renders to itself.
#[verifier::external_body]
fn render_template(
    registry: &Handlebars,
    template: &str,
    data: &Vec<(String, String)>,
) -> (r: Result<String, RenderError>)
    ensures
        !has_open_brace_pair(template@) ==> (r is Ok && r.unwrap()@ == template@),
{
    let map: BTreeMap<&str, &str> = data.iter().map(|(k, v)| (k.as_str(), v.as_str())).collect();
    registry.render_template(template, &map)
}

/// Relies on `RenderError`'s `Display`: a description of why rendering failed.
#[verifier::external_body]
fn render_error_text(e: &RenderError) -> String {
    e.to_string()
}

/// The variables known to a run, and the registry that renders templates against them.
pub struct Context<'ctx> {
    data: Vec<(String, String)>,
    registry: Handlebars<'ctx>,
}

impl<'ctx> View for Context<'ctx> {
    type V = Map<Seq<char>, Seq<char>>;

    closed spec fn view(&self) -> Map<Seq<char>, Seq<char>> {
        bindings_of(self.data@)
    }
}

impl<'ctx> Context<'ctx> {
    /// A context seeded with `params`, rendering through `registry`.
    pub fn from_args(params: Vec<KeyValue>, registry: Handlebars<'ctx>) -> (r: Self)
        ensures
            r@ == seeded(params@),
    {
        let mut data: Vec<(String, String)> = Vec::new();
        let mut i: usize = 0;
        while i < params.len()
            invariant
                i <= params.len(),
                data@.len() == i,
                forall|j: int| 0 <= j < i ==> (#[trigger] data@[j]).0@ == params@[j].0@ && data@[j].1@ == params@[j].1@,
                bindings_of(data@) == seeded(params@.take(i as int)),
            decreases params.len() - i,
        {
            let key = params[i].0.clone();
            let value = params[i].1.clone();
            let ghost prev = data@;
            data.push((key, value));
            assert(data@.drop_last() =~= prev);
            assert(params@.take(i + 1).drop_last() =~= params@.take(i as int));
            i = i + 1;
        }
        assert(params@.take(params.len() as int) =~= params@);
        Context { data, registry }
    }

    /// Renders `template` against the bound variables and the registry's functions.
    pub fn render(&self, template: &str) -> (r: Result<String, RequestError>)
        ensures
            !has_open_brace_pair(template@) ==> (r is Ok && r.unwrap()@ == template@),
            r is Err ==> r.unwrap_err().is_template(),
    {
        match render_template(&self.registry, template, &self.data) {
            Ok(t) => Ok(t),
            Err(e) => Err(RequestError::Template(template.to_owned(), render_error_text(&e))),
        }
    }

    /// Whether `key` is bound.
    pub fn contains(&self, key: &str) -> (r: bool)
        ensures
            r == self@.contains_key(key@),
    {
        let k = key.to_owned();
        let mut i: usize = 0;
        while i < self.data.len()
            invariant
                i <= self.data@.len(),
                k@ == key@,
                forall|j: int| 0 <= j < i ==> (#[trigger] self.data@[j]).0@ != key@,
            decreases self.data.len() - i,
        {
            if self.data[i].0 == k {
                proof {
                    lemma_bound_iff_listed(self.data@, key@);
                }
                return true;
            }
            i = i + 1;
        }
        proof {
            lemma_bound_iff_listed(self.data@, key@);
        }
        false
    }

    /// Binds `key` to `value`, replacing any earlier binding.
    pub fn variable(&mut self, key: &str, value: &str)
        ensures
            final(self)@ == old(self)@.insert(key@, value@),
    {
        let ghost prev = self.data@;
        self.data.push((key.to_owned(), value.to_owned()));
        assert(self.data@.drop_last() =~= prev);
    }
}

} // verus!
