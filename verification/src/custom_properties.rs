//! Custom properties (`--name: value`) and `var()` substitution.
//!
//! Values are substituted after parsing, so a variable holds a value rather
//! than a run of tokens. A variable that refers to itself, directly or
//! through others, stops after a fixed depth and yields an empty keyword
//! instead of recursing forever.
use vstd::prelude::*;

use crate::chars::{starts_with, starts_with_seq, str_equal};

verus! {

/// A parsed CSS value, as far as `var()` substitution looks into it.
#[derive(Debug, PartialEq)]
pub enum CssValue {
    Keyword(String),
    Function { name: String, args: Vec<CssValue> },
    /// Space-separated values.
    List(Vec<CssValue>),
    /// Comma-separated values.
    Commas(Vec<CssValue>),
    /// Any other value (a number, a length, a colour, a string), which
    /// substitution passes through untouched, told apart by a token.
    Other(u64),
}

/// The mathematical value of a [`CssValue`].
pub enum ValueModel {
    Keyword(Seq<char>),
    Function { name: Seq<char>, args: Seq<ValueModel> },
    List(Seq<ValueModel>),
    Commas(Seq<ValueModel>),
    Other(u64),
}

/// The model of a value: its strings as character sequences.
pub open spec fn model_of(v: CssValue) -> ValueModel
    decreases v,
{
    match v {
        CssValue::Keyword(s) => ValueModel::Keyword(s@),
        CssValue::Function { name, args } => ValueModel::Function {
            name: name@,
            args: models_of(args@),
        },
        CssValue::List(items) => ValueModel::List(models_of(items@)),
        CssValue::Commas(items) => ValueModel::Commas(models_of(items@)),
        CssValue::Other(n) => ValueModel::Other(n),
    }
}

/// The models of several values, in order.
pub open spec fn models_of(s: Seq<CssValue>) -> Seq<ValueModel>
    decreases s,
{
    if s.len() == 0 {
        Seq::empty()
    } else {
        models_of(s.subrange(0, s.len() - 1)).push(model_of(s[s.len() - 1]))
    }
}


proof fn lemma_models_of(s: Seq<CssValue>)
    ensures
        models_of(s).len() == s.len(),
        forall|k: int| 0 <= k < s.len() ==> #[trigger] models_of(s)[k] == model_of(s[k]),
    decreases s.len(),
{
    if s.len() > 0 {
        lemma_models_of(s.subrange(0, s.len() - 1));
    }
}

/// The name of the substitution function, `var`.
pub open spec fn var_name() -> Seq<char> {
    seq!['v', 'a', 'r']
}

/// What substitution gives where it cannot: an empty keyword.
pub open spec fn empty_keyword() -> ValueModel {
    ValueModel::Keyword(Seq::empty())
}

/// How deep substitution goes before it gives up.
pub open spec fn max_depth() -> nat {
    16
}

/// The value `name` is bound to: the last binding of that name.
pub open spec fn binding(props: Seq<(Seq<char>, ValueModel)>, name: Seq<char>) -> Option<ValueModel>
    decreases props.len(),
{
    if props.len() == 0 {
        None
    } else if props[props.len() - 1].0 == name {
        Some(props[props.len() - 1].1)
    } else {
        binding(props.subrange(0, props.len() - 1), name)
    }
}

/// Is `v` a call of `var()`?
pub open spec fn is_var_call(v: ValueModel) -> bool {
    v matches ValueModel::Function { name, .. } && name == var_name()
}

/// `v` with every `var(--name, fallback)` replaced by what `--name` is bound
/// to in `props` (itself substituted), or else by its fallback; a list of
/// one value stands for that value, and past the maximum depth everything is
/// an empty keyword.
pub open spec fn substituted(v: ValueModel, props: Seq<(Seq<char>, ValueModel)>, depth: nat) -> ValueModel
    decreases 17 - depth, v,
{
    if depth > max_depth() {
        empty_keyword()
    } else {
        match v {
            ValueModel::Function { name, args } => if name == var_name() {
                if args.len() == 0 {
                    empty_keyword()
                } else {
                    match args[0] {
                        ValueModel::Keyword(variable) => match binding(props, variable) {
                            Some(bound) => substituted(bound, props, depth + 1),
                            None => if args.len() == 1 {
                                empty_keyword()
                            } else if args.len() == 2 {
                                substituted(args[1], props, depth + 1)
                            } else {
                                ValueModel::List(
                                    substituted_all(args.subrange(1, args.len() as int), props, depth + 1),
                                )
                            },
                        },
                        _ => empty_keyword(),
                    }
                }
            } else {
                ValueModel::Function { name, args: substituted_each(args, props, depth) }
            },
            ValueModel::List(items) => {
                let s = substituted_each(items, props, depth);
                if s.len() == 1 {
                    s[0]
                } else {
                    ValueModel::List(s)
                }
            },
            ValueModel::Commas(items) => ValueModel::Commas(substituted_each(items, props, depth)),
            _ => v,
        }
    }
}

/// Each item substituted, a `var()` that gave a list spliced into the
/// surrounding items.
pub open spec fn substituted_each(items: Seq<ValueModel>, props: Seq<(Seq<char>, ValueModel)>, depth: nat) -> Seq<ValueModel>
    decreases 17 - depth, items,
{
    if items.len() == 0 {
        Seq::empty()
    } else {
        let prev = substituted_each(items.subrange(0, items.len() - 1), props, depth);
        let last = items[items.len() - 1];
        let r = substituted(last, props, depth);
        match r {
            ValueModel::List(inner) => if is_var_call(last) {
                prev + inner
            } else {
                prev.push(r)
            },
            _ => prev.push(r),
        }
    }
}

/// Each item substituted.
pub open spec fn substituted_all(items: Seq<ValueModel>, props: Seq<(Seq<char>, ValueModel)>, depth: nat) -> Seq<ValueModel>
    decreases 17 - depth, items,
{
    if items.len() == 0 {
        Seq::empty()
    } else {
        substituted_all(items.subrange(0, items.len() - 1), props, depth).push(
            substituted(items[items.len() - 1], props, depth),
        )
    }
}

/// The custom properties in scope for an element, in the order they were
/// set; the last binding of a name is the one in force.
#[derive(Debug)]
pub struct CustomProperties {
    entries: Vec<(String, CssValue)>,
}

/// A binding as a name and the model of its value.
pub open spec fn entry_model(e: (String, CssValue)) -> (Seq<char>, ValueModel) {
    (e.0@, model_of(e.1))
}

impl View for CustomProperties {
    type V = Seq<(Seq<char>, ValueModel)>;

    closed spec fn view(&self) -> Seq<(Seq<char>, ValueModel)> {
        self.entries@.map_values(|e: (String, CssValue)| entry_model(e))
    }
}

impl CustomProperties {
    /// No custom properties.
    pub fn new() -> (r: CustomProperties)
        ensures
            r@ == Seq::<(Seq<char>, ValueModel)>::empty(),
    {
        let r = CustomProperties { entries: Vec::new() };
        assert(r@ =~= Seq::<(Seq<char>, ValueModel)>::empty());
        r
    }

    /// The value `name` is bound to.
    pub fn get(&self, name: &str) -> (r: Option<&CssValue>)
        ensures
            match r {
                Some(v) => binding(self@, name@) == Some(model_of(*v)),
                None => binding(self@, name@) is None,
            },
    {
        let mut i = self.entries.len();
        assert(self@.subrange(0, i as int) =~= self@);
        while i > 0
            invariant
                i <= self.entries@.len(),
                self@.len() == self.entries@.len(),
                binding(self@, name@) == binding(self@.subrange(0, i as int), name@),
            decreases i,
        {
            let ghost prefix = self@.subrange(0, i as int);
            assert(prefix[i - 1] == entry_model(self.entries@[i - 1]));
            assert(prefix.subrange(0, i - 1) =~= self@.subrange(0, i - 1));
            if str_equal(self.entries[i - 1].0.as_str(), name) {
                return Some(&self.entries[i - 1].1);
            }
            i = i - 1;
        }
        assert(self@.subrange(0, 0) =~= Seq::<(Seq<char>, ValueModel)>::empty());
        None
    }

    /// Binds `name` to `value`, over any earlier binding of that name.
    pub fn set(&mut self, name: String, value: CssValue)
        ensures
            final(self)@ == old(self)@.push((name@, model_of(value))),
    {
        self.entries.push((name, value));
        assert(self@ =~= old(self)@.push((name@, model_of(value))));
    }
}

/// What a name is bound to after it is set: the value just set, and for any
/// other name what it was bound to before.
pub proof fn lemma_set_then_get(props: Seq<(Seq<char>, ValueModel)>, name: Seq<char>, value: ValueModel, other: Seq<char>)
    ensures
        binding(props.push((name, value)), name) == Some(value),
        other != name ==> binding(props.push((name, value)), other) == binding(props, other),
{
    assert(props.push((name, value)).subrange(0, props.len() as int) =~= props);
}

fn is_var(name: &String) -> (r: bool)
    ensures
        r == (name@ == var_name()),
{
    proof {
        reveal_strlit("var");
    }
    assert("var"@ =~= var_name());
    str_equal(name.as_str(), "var")
}

fn empty_value() -> (r: CssValue)
    ensures
        model_of(r) == empty_keyword(),
{
    CssValue::Keyword(String::new())
}

/// Replaces every `var(--name, fallback)` in `value` with what the name is
/// bound to in `props`.
pub fn substitute_vars(value: &CssValue, props: &CustomProperties) -> (r: CssValue)
    ensures
        model_of(r) == substituted(model_of(*value), props@, 0),
{
    substitute_with_depth(value, props, 0)
}

/// Substitution below `depth` levels of variables already followed.
pub fn substitute_with_depth(value: &CssValue, props: &CustomProperties, depth: usize) -> (r: CssValue)
    ensures
        model_of(r) == substituted(model_of(*value), props@, depth as nat),
    decreases 17 - depth, value,
{
    if depth > 16 {
        return empty_value();
    }
    match value {
        CssValue::Function { name, args } => {
            proof {
                lemma_models_of(args@);
            }
            if is_var(name) {
                if args.len() == 0 {
                    return empty_value();
                }
                match &args[0] {
                    CssValue::Keyword(variable) => match props.get(variable.as_str()) {
                        Some(bound) => substitute_with_depth(bound, props, depth + 1),
                        None => {
                            if args.len() == 1 {
                                empty_value()
                            } else if args.len() == 2 {
                                substitute_with_depth(&args[1], props, depth + 1)
                            } else {
                                let out = substitute_rest(args, props, depth + 1);
                                CssValue::List(out)
                            }
                        },
                    },
                    _ => empty_value(),
                }
            } else {
                let out = substitute_each(args, props, depth);
                CssValue::Function { name: name.clone(), args: out }
            }
        },
        CssValue::List(items) => {
            let mut out = substitute_each(items, props, depth);
            proof {
                lemma_models_of(out@);
            }
            if out.len() == 1 {
                match out.pop() {
                    Some(single) => single,
                    None => empty_value(),
                }
            } else {
                CssValue::List(out)
            }
        },
        CssValue::Commas(items) => CssValue::Commas(substitute_each(items, props, depth)),
        CssValue::Keyword(word) => CssValue::Keyword(word.clone()),
        CssValue::Other(token) => CssValue::Other(*token),
    }
}

/// The fallback of a `var()` whose variable is unbound, from its second
/// argument on, each substituted.
fn substitute_rest(args: &Vec<CssValue>, props: &CustomProperties, depth: usize) -> (r: Vec<CssValue>)
    requires
        args@.len() > 2,
        1 <= depth <= 17,
    ensures
        models_of(r@) == substituted_all(models_of(args@).subrange(1, args@.len() as int), props@, depth as nat),
    decreases 17 - depth, args, 
{
    let ghost m = models_of(args@);
    proof {
        lemma_models_of(args@);
    }
    let mut out: Vec<CssValue> = Vec::new();
    let mut i: usize = 1;
    while i < args.len()
        invariant
            1 <= i <= args@.len(),
            m == models_of(args@),
            m.len() == args@.len(),
            forall|k: int| 0 <= k < args@.len() ==> #[trigger] m[k] == model_of(args@[k]),
            models_of(out@) == substituted_all(m.subrange(1, i as int), props@, depth as nat),
        decreases args@.len() - i,
    {
        let r = substitute_with_depth(&args[i], props, depth);
        let ghost before = out@;
        out.push(r);
        proof {
            assert(out@.subrange(0, out@.len() - 1) =~= before);
            assert(m.subrange(1, i + 1).subrange(0, i - 1) =~= m.subrange(1, i as int));
        }
        i = i + 1;
    }
    out
}

/// Each item substituted, a `var()` that gave a list spliced into the list.
fn substitute_each(items: &Vec<CssValue>, props: &CustomProperties, depth: usize) -> (r: Vec<CssValue>)
    requires
        depth <= 16,
    ensures
        models_of(r@) == substituted_each(models_of(items@), props@, depth as nat),
    decreases 17 - depth, items,
{
    let ghost m = models_of(items@);
    proof {
        lemma_models_of(items@);
    }
    let mut out: Vec<CssValue> = Vec::new();
    let mut i: usize = 0;
    while i < items.len()
        invariant
            i <= items@.len(),
            m == models_of(items@),
            m.len() == items@.len(),
            forall|k: int| 0 <= k < items@.len() ==> #[trigger] m[k] == model_of(items@[k]),
            models_of(out@) == substituted_each(m.subrange(0, i as int), props@, depth as nat),
        decreases items@.len() - i,
    {
        let item = &items[i];
        let was_var = match item {
            CssValue::Function { name, .. } => is_var(name),
            _ => false,
        };
        assert(was_var == is_var_call(m[i as int]));
        let r = substitute_with_depth(item, props, depth);
        let ghost before = out@;
        proof {
            assert(m.subrange(0, i + 1).subrange(0, i as int) =~= m.subrange(0, i as int));
            assert(m.subrange(0, i + 1)[i as int] == m[i as int]);
        }
        match r {
            CssValue::List(mut inner) => {
                if was_var {
                    let ghost inner_seq = inner@;
                    out.append(&mut inner);
                    proof {
                        lemma_models_of_concat(before, inner_seq);
                    }
                } else {
                    out.push(CssValue::List(inner));
                    proof {
                        assert(out@.subrange(0, out@.len() - 1) =~= before);
                    }
                }
            },
            other => {
                out.push(other);
                proof {
                    assert(out@.subrange(0, out@.len() - 1) =~= before);
                }
            },
        }
        i = i + 1;
    }
    assert(m.subrange(0, i as int) =~= m);
    out
}

proof fn lemma_models_of_concat(a: Seq<CssValue>, b: Seq<CssValue>)
    ensures
        models_of(a + b) == models_of(a) + models_of(b),
    decreases b.len(),
{
    if b.len() > 0 {
        let b0 = b.subrange(0, b.len() - 1);
        lemma_models_of_concat(a, b0);
        assert((a + b).subrange(0, (a + b).len() - 1) =~= a + b0);
        assert((a + b)[(a + b).len() - 1] == b[b.len() - 1]);
        assert(models_of(a) + models_of(b) =~= (models_of(a) + models_of(b0)).push(model_of(b[b.len() - 1])));
    } else {
        assert(a + b =~= a);
        assert(models_of(a) + models_of(b) =~= models_of(a));
    }
}

/// A declaration, in the order the cascade applies it.
#[derive(Debug, PartialEq)]
pub struct Declaration {
    pub name: String,
    pub value: CssValue,
    pub important: bool,
}

/// A declaration as its name, the model of its value and its importance.
pub open spec fn declaration_model(d: Declaration) -> (Seq<char>, ValueModel, bool) {
    (d.name@, model_of(d.value), d.important)
}

pub open spec fn declaration_models(ds: Seq<Declaration>) -> Seq<(Seq<char>, ValueModel, bool)> {
    ds.map_values(|d: Declaration| declaration_model(d))
}

/// Is `name` the name of a custom property (`--name`)?
pub open spec fn is_custom_name(name: Seq<char>) -> bool {
    starts_with_seq(name, seq!['-', '-'])
}

/// The custom properties in scope after the custom-property declarations
/// among `decls` are applied in order over `props`: each binds its name to
/// its value, substituted against what was in scope before it.
pub open spec fn declared_properties(
    props: Seq<(Seq<char>, ValueModel)>,
    decls: Seq<(Seq<char>, ValueModel, bool)>,
) -> Seq<(Seq<char>, ValueModel)>
    decreases decls.len(),
{
    if decls.len() == 0 {
        props
    } else {
        let prev = declared_properties(props, decls.subrange(0, decls.len() - 1));
        let d = decls[decls.len() - 1];
        if is_custom_name(d.0) {
            prev.push((d.0, substituted(d.1, prev, 0)))
        } else {
            prev
        }
    }
}

fn is_custom(name: &String) -> (r: bool)
    ensures
        r == is_custom_name(name@),
{
    proof {
        reveal_strlit("--");
    }
    assert("--"@ =~= seq!['-', '-']);
    starts_with(name.as_str(), "--")
}

/// Applies the custom-property declarations among `declarations`, in order,
/// over the inherited `properties`; a later declaration of a name wins.
pub fn resolve_custom_properties(properties: CustomProperties, declarations: &Vec<Declaration>) -> (r: CustomProperties)
    ensures
        r@ == declared_properties(properties@, declaration_models(declarations@)),
{
    let ghost ds = declaration_models(declarations@);
    let ghost start = properties@;
    let mut props = properties;
    let mut i: usize = 0;
    while i < declarations.len()
        invariant
            i <= declarations@.len(),
            ds == declaration_models(declarations@),
            props@ == declared_properties(start, ds.subrange(0, i as int)),
        decreases declarations@.len() - i,
    {
        let d = &declarations[i];
        proof {
            assert(ds.subrange(0, i + 1).subrange(0, i as int) =~= ds.subrange(0, i as int));
            assert(ds.subrange(0, i + 1)[i as int] == declaration_model(declarations@[i as int]));
        }
        if is_custom(&d.name) {
            let value = substitute_vars(&d.value, &props);
            props.set(d.name.clone(), value);
        }
        i = i + 1;
    }
    assert(ds.subrange(0, i as int) =~= ds);
    props
}

/// The ordinary (not custom-property) declarations among `decls`, in order,
/// each value substituted against `props`.
pub open spec fn resolved_declarations(
    decls: Seq<(Seq<char>, ValueModel, bool)>,
    props: Seq<(Seq<char>, ValueModel)>,
) -> Seq<(Seq<char>, ValueModel, bool)>
    decreases decls.len(),
{
    if decls.len() == 0 {
        Seq::empty()
    } else {
        let prev = resolved_declarations(decls.subrange(0, decls.len() - 1), props);
        let d = decls[decls.len() - 1];
        if is_custom_name(d.0) {
            prev
        } else {
            prev.push((d.0, substituted(d.1, props, 0), d.2))
        }
    }
}

/// The ordinary declarations among `declarations`, in order, with every
/// `var()` substituted against `properties`; each keeps its importance.
pub fn resolve_declarations(declarations: &Vec<Declaration>, properties: &CustomProperties) -> (r: Vec<Declaration>)
    ensures
        declaration_models(r@) == resolved_declarations(declaration_models(declarations@), properties@),
{
    let ghost ds = declaration_models(declarations@);
    let mut out: Vec<Declaration> = Vec::new();
    let mut i: usize = 0;
    while i < declarations.len()
        invariant
            i <= declarations@.len(),
            ds == declaration_models(declarations@),
            declaration_models(out@) == resolved_declarations(ds.subrange(0, i as int), properties@),
        decreases declarations@.len() - i,
    {
        let d = &declarations[i];
        proof {
            assert(ds.subrange(0, i + 1).subrange(0, i as int) =~= ds.subrange(0, i as int));
            assert(ds.subrange(0, i + 1)[i as int] == declaration_model(declarations@[i as int]));
        }
        if !is_custom(&d.name) {
            let value = substitute_vars(&d.value, properties);
            let ghost before = out@;
            out.push(Declaration { name: d.name.clone(), value, important: d.important });
            assert(declaration_models(out@) =~= declaration_models(before).push(
                (d.name@, model_of(out@[out@.len() - 1].value), d.important),
            ));
        }
        i = i + 1;
    }
    assert(ds.subrange(0, i as int) =~= ds);
    out
}

/// `var(name)`, with no fallback.
pub open spec fn var_call(name: Seq<char>) -> ValueModel {
    ValueModel::Function { name: var_name(), args: seq![ValueModel::Keyword(name)] }
}

/// A variable that refers to itself does not recurse forever: it
/// substitutes to an empty keyword.
pub proof fn lemma_self_reference_is_empty(props: Seq<(Seq<char>, ValueModel)>, name: Seq<char>, depth: nat)
    requires
        binding(props, name) == Some(var_call(name)),
    ensures
        substituted(var_call(name), props, depth) == empty_keyword(),
    decreases 17 - depth,
{
    if depth <= max_depth() {
        lemma_self_reference_is_empty(props, name, depth + 1);
    }
}

/// Custom properties cascade like anything else: of several declarations of
/// one name, the last applied is the one in force, with its value
/// substituted against what was in scope before it.
pub proof fn lemma_later_declaration_wins(
    props: Seq<(Seq<char>, ValueModel)>,
    decls: Seq<(Seq<char>, ValueModel, bool)>,
    name: Seq<char>,
    value: ValueModel,
    important: bool,
)
    requires
        is_custom_name(name),
    ensures
        binding(declared_properties(props, decls.push((name, value, important))), name) == Some(
            substituted(value, declared_properties(props, decls), 0),
        ),
{
    assert(decls.push((name, value, important)).subrange(0, decls.len() as int) =~= decls);
    lemma_set_then_get(declared_properties(props, decls), name, substituted(value, declared_properties(props, decls), 0), name);
}

/// Custom properties inherit: a name that no declaration sets keeps the
/// binding it had.
pub proof fn lemma_undeclared_names_are_inherited(
    props: Seq<(Seq<char>, ValueModel)>,
    decls: Seq<(Seq<char>, ValueModel, bool)>,
    name: Seq<char>,
)
    requires
        forall|k: int| 0 <= k < decls.len() ==> #[trigger] decls[k].0 != name,
    ensures
        binding(declared_properties(props, decls), name) == binding(props, name),
    decreases decls.len(),
{
    if decls.len() > 0 {
        let prev = decls.subrange(0, decls.len() - 1);
        assert forall|k: int| 0 <= k < prev.len() implies #[trigger] prev[k].0 != name by {
            assert(prev[k] == decls[k]);
        }
        lemma_undeclared_names_are_inherited(props, prev, name);
        let d = decls[decls.len() - 1];
        if is_custom_name(d.0) {
            let before = declared_properties(props, prev);
            lemma_set_then_get(before, d.0, substituted(d.1, before, 0), name);
        }
    }
}

/// Holds no `var()` and no list of a single value (which stands for that
/// value).
pub open spec fn is_plain(v: ValueModel) -> bool
    decreases v,
{
    match v {
        ValueModel::Function { name, args } => name != var_name() && all_plain(args),
        ValueModel::List(items) => items.len() != 1 && all_plain(items),
        ValueModel::Commas(items) => all_plain(items),
        _ => true,
    }
}

pub open spec fn all_plain(s: Seq<ValueModel>) -> bool
    decreases s,
{
    if s.len() == 0 {
        true
    } else {
        all_plain(s.subrange(0, s.len() - 1)) && is_plain(s[s.len() - 1])
    }
}

/// Substitution leaves a value that holds no `var()` as it is.
pub proof fn lemma_plain_value_is_unchanged(v: ValueModel, props: Seq<(Seq<char>, ValueModel)>, depth: nat)
    requires
        is_plain(v),
        depth <= max_depth(),
    ensures
        substituted(v, props, depth) == v,
    decreases v,
{
    match v {
        ValueModel::Function { name, args } => {
            lemma_plain_items_are_unchanged(args, props, depth);
        },
        ValueModel::List(items) => {
            lemma_plain_items_are_unchanged(items, props, depth);
        },
        ValueModel::Commas(items) => {
            lemma_plain_items_are_unchanged(items, props, depth);
        },
        _ => {},
    }
}

proof fn lemma_plain_items_are_unchanged(s: Seq<ValueModel>, props: Seq<(Seq<char>, ValueModel)>, depth: nat)
    requires
        all_plain(s),
        depth <= max_depth(),
    ensures
        substituted_each(s, props, depth) == s,
    decreases s,
{
    if s.len() > 0 {
        let prev = s.subrange(0, s.len() - 1);
        lemma_plain_items_are_unchanged(prev, props, depth);
        lemma_plain_value_is_unchanged(s[s.len() - 1], props, depth);
        assert(prev.push(s[s.len() - 1]) =~= s);
    }
}

/// `var(name, fallback...)`: a bound variable substitutes its bound value,
/// followed one level deeper, whatever fallback follows it; the fallback is
/// used only when the variable is unbound, and an unbound variable with no
/// fallback gives an empty keyword.
pub proof fn lemma_bound_variable_ignores_fallback(
    variable: Seq<char>,
    fallback: Seq<ValueModel>,
    props: Seq<(Seq<char>, ValueModel)>,
    depth: nat,
)
    requires
        depth <= max_depth(),
    ensures
        binding(props, variable) matches Some(bound) ==> substituted(
            ValueModel::Function { name: var_name(), args: seq![ValueModel::Keyword(variable)] + fallback },
            props,
            depth,
        ) == substituted(bound, props, depth + 1),
        binding(props, variable) is None && fallback.len() == 0 ==> substituted(
            ValueModel::Function { name: var_name(), args: seq![ValueModel::Keyword(variable)] + fallback },
            props,
            depth,
        ) == ValueModel::Keyword(Seq::empty()),
        binding(props, variable) is None && fallback.len() == 1 ==> substituted(
            ValueModel::Function { name: var_name(), args: seq![ValueModel::Keyword(variable)] + fallback },
            props,
            depth,
        ) == substituted(fallback[0], props, depth + 1),
{
    let args = seq![ValueModel::Keyword(variable)] + fallback;
    assert(args[0] == ValueModel::Keyword(variable));
    assert(args.len() == fallback.len() + 1);
    if fallback.len() == 1 {
        assert(args[1] == fallback[0]);
    }
}

/// Two `var()` calls of one bound variable substitute alike, whatever their
/// fallbacks.
pub proof fn lemma_fallback_does_not_matter_when_bound(
    variable: Seq<char>,
    first: Seq<ValueModel>,
    second: Seq<ValueModel>,
    props: Seq<(Seq<char>, ValueModel)>,
    depth: nat,
)
    requires
        binding(props, variable) is Some,
    ensures
        substituted(
            ValueModel::Function { name: var_name(), args: seq![ValueModel::Keyword(variable)] + first },
            props,
            depth,
        ) == substituted(
            ValueModel::Function { name: var_name(), args: seq![ValueModel::Keyword(variable)] + second },
            props,
            depth,
        ),
{
    if depth <= max_depth() {
        lemma_bound_variable_ignores_fallback(variable, first, props, depth);
        lemma_bound_variable_ignores_fallback(variable, second, props, depth);
    }
}

} // verus!
