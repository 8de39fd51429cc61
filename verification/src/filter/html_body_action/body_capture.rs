//! Variables of a rule, some of whose values are captured from the body.
use vstd::prelude::*;

use crate::api::VariableValue;
use crate::marker::{StaticOrDynamic, lemma_map_insert_at, lemma_map_insert_new, map_insert, pairs_view, replace_variables};
use crate::text::{order_by_length, order_by_length_desc, str_eq};

verus! {

/// A variable of the registry as plain values: its name and its value.
pub open spec fn variables_view(v: Seq<(String, VariableValue)>) -> Seq<(Seq<char>, VariableValue)> {
    v.map_values(|p: (String, VariableValue)| (p.0@, p.1))
}

/// The variables with a known value, as (name, value), in order.
pub open spec fn static_values(vars: Seq<(Seq<char>, VariableValue)>) -> Seq<(Seq<char>, Seq<char>)>
    decreases vars.len(),
{
    if vars.len() == 0 {
        Seq::empty()
    } else {
        static_values(vars.drop_last()) + match vars.last().1 {
            VariableValue::Static(s) => seq![(vars.last().0, s@)],
            VariableValue::HtmlFilter { .. } => Seq::empty(),
        }
    }
}

/// The (selector, name) of each variable to capture from the body, in order.
pub open spec fn capture_selectors(vars: Seq<(Seq<char>, VariableValue)>) -> Seq<(Seq<char>, Seq<char>)>
    decreases vars.len(),
{
    if vars.len() == 0 {
        Seq::empty()
    } else {
        capture_selectors(vars.drop_last()) + match vars.last().1 {
            VariableValue::Static(_) => Seq::empty(),
            VariableValue::HtmlFilter { selector } => seq![(selector@, vars.last().0)],
        }
    }
}

/// `pairs` ordered by the length of their names, longest first, equal lengths in their order.
pub open spec fn longest_names_first(pairs: Seq<(Seq<char>, Seq<char>)>) -> Seq<(Seq<char>, Seq<char>)> {
    order_by_length(pairs.map_values(|p: (Seq<char>, Seq<char>)| p.0.len()), pairs.len() as int).map_values(
        |i: int| pairs[i],
    )
}

/// Variables are put in longest name first, so that a name is not taken for the start of a
/// longer one.
pub proof fn law_variables_are_put_in_longest_name_first(pairs: Seq<(Seq<char>, Seq<char>)>)
    ensures
        forall|a: int, b: int|
            0 <= a < b < longest_names_first(pairs).len() ==> (#[trigger] longest_names_first(pairs)[a]).0.len()
                >= (#[trigger] longest_names_first(pairs)[b]).0.len(),
{
    let lens = pairs.map_values(|p: (Seq<char>, Seq<char>)| p.0.len());
    let order = order_by_length(lens, pairs.len() as int);
    crate::text::law_order_by_length_puts_the_longest_first(lens, pairs.len() as int);
    crate::text::lemma_order_in_range(lens, pairs.len() as int);
    assert forall|a: int, b: int| 0 <= a < b < longest_names_first(pairs).len() implies (#[trigger] longest_names_first(
        pairs,
    )[a]).0.len() >= (#[trigger] longest_names_first(pairs)[b]).0.len() by {
        assert(longest_names_first(pairs)[a] == pairs[order[a]]);
        assert(longest_names_first(pairs)[b] == pairs[order[b]]);
        assert(lens[order[a]] >= lens[order[b]]);
    }
}

/// The body has something to capture exactly when a variable takes its value from an HTML
/// filter.
pub proof fn law_a_capture_is_needed_for_an_html_variable(vars: Seq<(Seq<char>, VariableValue)>)
    ensures
        capture_selectors(vars).len() > 0 <==> exists|i: int| 0 <= i < vars.len() && (#[trigger] vars[i]).1 is HtmlFilter,
    decreases vars.len(),
{
    if vars.len() > 0 {
        let rest = vars.drop_last();
        law_a_capture_is_needed_for_an_html_variable(rest);
        if exists|i: int| 0 <= i < rest.len() && (#[trigger] rest[i]).1 is HtmlFilter {
            let i = choose|i: int| 0 <= i < rest.len() && (#[trigger] rest[i]).1 is HtmlFilter;
            assert(vars[i] == rest[i]);
        }
        if exists|i: int| 0 <= i < vars.len() && (#[trigger] vars[i]).1 is HtmlFilter {
            let i = choose|i: int| 0 <= i < vars.len() && (#[trigger] vars[i]).1 is HtmlFilter;
            if i < vars.len() - 1 {
                assert(rest[i] == vars[i]);
            }
        }
    }
}

/// The variables of a rule, by name.
#[derive(Debug)]
pub struct CaptureRegistry {
    variables: Vec<(String, VariableValue)>,
}

impl CaptureRegistry {
    /// The variables, in the order they were first given.
    pub closed spec fn spec_variables(&self) -> Seq<(Seq<char>, VariableValue)> {
        variables_view(self.variables@)
    }

    /// `value` with the tag of each variable with a known value replaced by the value,
    /// the longest names first.
    pub open spec fn spec_replace(&self, value: Seq<char>) -> Seq<char> {
        replace_variables(value, longest_names_first(static_values(self.spec_variables())))
    }

    /// `value` with the variables put in.
    pub fn replace(&self, value: String) -> (res: String)
        ensures
            res@ == self.spec_replace(value@),
    {
        let ghost vars = self.spec_variables();
        let mut statics: Vec<(String, String)> = Vec::new();
        let mut i: usize = 0;
        while i < self.variables.len()
            invariant
                i <= self.variables@.len(),
                vars == variables_view(self.variables@),
                pairs_view(statics@) == static_values(vars.take(i as int)),
            decreases self.variables@.len() - i,
        {
            proof {
                assert(vars.take(i + 1).drop_last() =~= vars.take(i as int));
            }
            let ghost before = statics@;
            match &self.variables[i].1 {
                VariableValue::Static(s) => {
                    statics.push((self.variables[i].0.clone(), s.clone()));
                },
                VariableValue::HtmlFilter { .. } => {},
            }
            assert(pairs_view(statics@) =~= static_values(vars.take(i + 1)));
            i = i + 1;
        }
        assert(vars.take(i as int) =~= vars);
        let ghost sv = pairs_view(statics@);
        let mut lens: Vec<usize> = Vec::new();
        let mut j: usize = 0;
        while j < statics.len()
            invariant
                j <= statics@.len(),
                lens@.len() == j,
                sv == pairs_view(statics@),
                forall|k: int| 0 <= k < j ==> #[trigger] lens@[k] as nat == sv[k].0.len(),
            decreases statics@.len() - j,
        {
            lens.push(statics[j].0.unicode_len());
            j = j + 1;
        }
        let order = order_by_length_desc(&lens);
        let ghost ls = lens@.map_values(|l: usize| l as nat);
        assert(ls =~= sv.map_values(|p: (Seq<char>, Seq<char>)| p.0.len()));
        proof {
            crate::text::lemma_order_in_range(ls, ls.len() as int);
        }
        let ghost ord = order@.map_values(|i: usize| i as int);
        let mut sorted: Vec<(String, String)> = Vec::new();
        let mut k: usize = 0;
        while k < order.len()
            invariant
                k <= order@.len(),
                sv == pairs_view(statics@),
                ord == order@.map_values(|i: usize| i as int),
                ord == order_by_length(ls, ls.len() as int),
                ls.len() == statics@.len(),
                forall|j: int| 0 <= j < ord.len() ==> 0 <= #[trigger] ord[j] < ls.len(),
                pairs_view(sorted@) == ord.take(k as int).map_values(|i: int| sv[i]),
            decreases order@.len() - k,
        {
            proof {
                assert(ord[k as int] == order@[k as int] as int);
            }
            let p = &statics[order[k]];
            let ghost before = sorted@;
            sorted.push((p.0.clone(), p.1.clone()));
            proof {
                assert(sv[ord[k as int]] == (p.0@, p.1@));
                assert(ord.take(k + 1) =~= ord.take(k as int).push(ord[k as int]));
                assert(pairs_view(sorted@) =~= pairs_view(before).push((p.0@, p.1@)));
                assert(ord.take(k + 1).map_values(|i: int| sv[i]) =~= ord.take(k as int).map_values(|i: int| sv[i]).push(
                    sv[ord[k as int]],
                ));
            }
            assert(pairs_view(sorted@) =~= ord.take(k + 1).map_values(|i: int| sv[i]));
            k = k + 1;
        }
        assert(ord.take(k as int) =~= ord);
        StaticOrDynamic::replace(value, sorted.as_slice())
    }

    /// Gives the variable `name`, where there is one, the known value `value`.
    pub fn set_variable(&mut self, name: String, value: String)
        ensures
            variable_set(old(self).spec_variables(), final(self).spec_variables(), name@, value@),
    {
        let ghost vars = self.spec_variables();
        let mut i: usize = 0;
        while i < self.variables.len()
            invariant
                i <= self.variables@.len(),
                vars == variables_view(self.variables@),
                vars == old(self).spec_variables(),
                forall|j: int| 0 <= j < i ==> vars[j].0 != name@,
            decreases self.variables@.len() - i,
        {
            if str_eq(self.variables[i].0.as_str(), name.as_str()) {
                let new_value = self.variables[i].1.to_static(value);
                let key = self.variables[i].0.clone();
                proof {
                    lemma_first_named(vars, name@, i as int);
                }
                let ghost v2 = new_value;
                self.variables.set(i, (key, new_value));
                assert(variables_view(self.variables@) =~= vars.update(i as int, (name@, v2)));
                return;
            }
            i = i + 1;
        }
        proof {
            lemma_first_named_none(vars, name@);
        }
    }

    /// Takes a chunk of the text of an element that the capture of `name` selects: the chunk
    /// adds to the text gathered in `pending`; at the end of the text node the variable gets
    /// all of it, and `pending` starts again empty.
    pub fn capture_text(&mut self, name: &String, pending: &mut String, chunk: &str, last_in_text_node: bool)
        ensures
            last_in_text_node ==> {
                &&& final(pending)@ == Seq::<char>::empty()
                &&& variable_set(old(self).spec_variables(), final(self).spec_variables(), name@, old(pending)@ + chunk@)
            },
            !last_in_text_node ==> {
                &&& final(pending)@ == old(pending)@ + chunk@
                &&& final(self).spec_variables() == old(self).spec_variables()
            },
    {
        pending.append(chunk);
        if last_in_text_node {
            let mut value = String::new();
            std::mem::swap(pending, &mut value);
            self.set_variable(name.clone(), value);
        }
    }

    /// A registry of `variables`; a later variable of a name takes the place of an earlier one.
    pub fn from_variables(variables: Vec<(String, VariableValue)>) -> (res: Self)
        ensures
            res.spec_variables() == insert_all(Seq::empty(), variables_view(variables@)),
    {
        let ghost vv = variables_view(variables@);
        let mut vars: Vec<(String, VariableValue)> = Vec::new();
        let mut variables = variables;
        let ghost mut n: int = 0;
        proof {
            assert(vv.take(0) =~= Seq::<(Seq<char>, VariableValue)>::empty());
            assert(vv.skip(0) =~= vv);
        }
        while variables.len() > 0
            invariant
                0 <= n <= vv.len(),
                vv.len() == n + variables@.len(),
                variables_view(variables@) == vv.skip(n),
                variables_view(vars@) == insert_all(Seq::empty(), vv.take(n)),
            decreases variables@.len(),
        {
            let ghost before = variables@;
            let (name, value) = variables.remove(0);
            proof {
                assert forall|j: int| 0 <= j < variables@.len() implies #[trigger] variables_view(variables@)[j] == vv.skip(n + 1)[j] by {
                    assert(variables@[j] == before[j + 1]);
                    assert(variables_view(before)[j + 1] == vv.skip(n)[j + 1]);
                }
                assert(variables_view(before)[0] == (name@, value));
                assert(variables_view(variables@) =~= vv.skip(n + 1));
                assert(vv.skip(n)[0] == vv[n]);
                assert(vv[n] == (name@, value));
                assert(vv.take(n + 1).drop_last() =~= vv.take(n));
            }
            insert_variable(&mut vars, name, value);
            proof {
                n = n + 1;
            }
        }
        assert(vv.take(n) =~= vv);
        CaptureRegistry { variables: vars }
    }

    /// Whether a variable waits for a value from the body.
    pub fn need_body_capture(&self) -> (res: bool)
        ensures
            res == (capture_selectors(self.spec_variables()).len() > 0),
    {
        let ghost vars = self.spec_variables();
        let mut i: usize = 0;
        while i < self.variables.len()
            invariant
                i <= self.variables@.len(),
                vars == variables_view(self.variables@),
                capture_selectors(vars.take(i as int)).len() == 0,
            decreases self.variables@.len() - i,
        {
            proof {
                assert(vars.take(i + 1).drop_last() =~= vars.take(i as int));
            }
            match &self.variables[i].1 {
                VariableValue::HtmlFilter { .. } => {
                    proof {
                        lemma_capture_selectors_grow(vars, i + 1);
                    }
                    return true;
                },
                VariableValue::Static(_) => {},
            }
            i = i + 1;
        }
        assert(vars.take(i as int) =~= vars);
        false
    }

    /// The (selector, variable name) of each variable to capture from the body.
    pub fn selectors(&self) -> (res: Vec<(String, String)>)
        ensures
            pairs_view(res@) == capture_selectors(self.spec_variables()),
    {
        let ghost vars = self.spec_variables();
        let mut selectors: Vec<(String, String)> = Vec::new();
        let mut i: usize = 0;
        while i < self.variables.len()
            invariant
                i <= self.variables@.len(),
                vars == variables_view(self.variables@),
                pairs_view(selectors@) == capture_selectors(vars.take(i as int)),
            decreases self.variables@.len() - i,
        {
            proof {
                assert(vars.take(i + 1).drop_last() =~= vars.take(i as int));
            }
            match &self.variables[i].1 {
                VariableValue::HtmlFilter { selector } => {
                    selectors.push((selector.clone(), self.variables[i].0.clone()));
                },
                VariableValue::Static(_) => {},
            }
            assert(pairs_view(selectors@) =~= capture_selectors(vars.take(i + 1)));
            i = i + 1;
        }
        assert(vars.take(i as int) =~= vars);
        selectors
    }
}

/// The index of the first variable named `name`, if any.
/// `after` is `before` with the first variable of `name`, where there is one, set to the
/// known value `value`; nothing else changes.
pub open spec fn variable_set(
    before: Seq<(Seq<char>, VariableValue)>,
    after: Seq<(Seq<char>, VariableValue)>,
    name: Seq<char>,
    value: Seq<char>,
) -> bool {
    match first_named(before, name) {
        Some(i) => {
            &&& after.len() == before.len()
            &&& forall|j: int| 0 <= j < before.len() && j != i ==> after[j] == before[j]
            &&& after[i].0 == name
            &&& after[i].1 matches VariableValue::Static(s) && s@ == value
        },
        None => after == before,
    }
}

pub open spec fn first_named(vars: Seq<(Seq<char>, VariableValue)>, name: Seq<char>) -> Option<int> {
    if exists|i: int| 0 <= i < vars.len() && vars[i].0 == name {
        Some(choose|i: int| 0 <= i < vars.len() && vars[i].0 == name && forall|j: int| 0 <= j < i ==> vars[j].0 != name)
    } else {
        None
    }
}

proof fn lemma_first_named(vars: Seq<(Seq<char>, VariableValue)>, name: Seq<char>, i: int)
    requires
        0 <= i < vars.len(),
        vars[i].0 == name,
        forall|j: int| 0 <= j < i ==> vars[j].0 != name,
    ensures
        first_named(vars, name) == Some(i),
{
    let k = choose|k: int| 0 <= k < vars.len() && vars[k].0 == name && forall|j: int| 0 <= j < k ==> vars[j].0 != name;
    assert(0 <= k < vars.len() && vars[k].0 == name && forall|j: int| 0 <= j < k ==> vars[j].0 != name);
    if k < i {
    } else if k > i {
    }
}

proof fn lemma_first_named_none(vars: Seq<(Seq<char>, VariableValue)>, name: Seq<char>)
    requires
        forall|j: int| 0 <= j < vars.len() ==> vars[j].0 != name,
    ensures
        first_named(vars, name) is None,
{
}

proof fn lemma_capture_selectors_grow(vars: Seq<(Seq<char>, VariableValue)>, n: int)
    requires
        0 < n <= vars.len(),
        vars[n - 1].1 is HtmlFilter,
    ensures
        capture_selectors(vars).len() > 0,
    decreases vars.len(),
{
    if n < vars.len() {
        lemma_capture_selectors_grow(vars.drop_last(), n);
        assert(vars.drop_last()[n - 1] == vars[n - 1]);
    }
}

/// `base` with each of `vars` set in turn.
pub open spec fn insert_all(base: Seq<(Seq<char>, VariableValue)>, vars: Seq<(Seq<char>, VariableValue)>) -> Seq<(Seq<char>, VariableValue)>
    decreases vars.len(),
{
    if vars.len() == 0 {
        base
    } else {
        map_insert(insert_all(base, vars.drop_last()), vars.last().0, vars.last().1)
    }
}

/// Sets the variable `name` to `value`, in place where it is there, at the end otherwise.
fn insert_variable(vars: &mut Vec<(String, VariableValue)>, name: String, value: VariableValue)
    ensures
        variables_view(final(vars)@) == map_insert(variables_view(old(vars)@), name@, value),
{
    let ghost kv = variables_view(vars@);
    let mut i: usize = 0;
    while i < vars.len()
        invariant
            i <= vars@.len(),
            kv == variables_view(vars@),
            kv == variables_view(old(vars)@),
            forall|j: int| 0 <= j < i ==> kv[j].0 != name@,
        decreases vars@.len() - i,
    {
        if str_eq(vars[i].0.as_str(), name.as_str()) {
            proof {
                lemma_map_insert_at(kv, name@, value, i as int);
            }
            let ghost nv = name@;
            vars.set(i, (name, value));
            assert(variables_view(vars@) =~= kv.update(i as int, (nv, value)));
            return;
        }
        i = i + 1;
    }
    proof {
        lemma_map_insert_new(kv, name@, value);
    }
    let ghost nv = name@;
    vars.push((name, value));
    assert(variables_view(vars@) =~= kv.push((nv, value)));
}

/// Captures from the body the values of the variables of a registry.
#[derive(Debug)]
pub struct BodyCapture(pub CaptureRegistry);

} // verus!
