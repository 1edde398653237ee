//! The value model: the tagged union of context values and the context
//! mapping itself, together with their mathematical views.
use vstd::prelude::*;
use crate::template::text::str_eq;

verus! {

/// Mathematical view of a context value: text, truth value, the decimal text
/// of a number, a sequence of values, or a mapping from names to values.
pub enum Val {
    StrV(Seq<char>),
    BoolV(bool),
    NumV(Seq<char>),
    ListV(Seq<Val>),
    ObjV(Map<Seq<char>, Val>),
}

/// Supported value types for the template context.
///
/// A number carries its decimal textual form: rendering is the only consumer
/// of numbers in this engine, and all it ever reads is that text.
pub enum TemplateValue {
    String(String),
    Bool(bool),
    Number(String),
    List(Vec<TemplateValue>),
    Object(Context),
}

/// A name-to-value mapping: the render-time context, and the payload of an
/// `Object` value. Entries nearer the front shadow later entries with the
/// same name, so its view is a plain map.
pub struct Context {
    pub entries: Vec<(String, TemplateValue)>,
}

pub open spec fn value_view(v: TemplateValue) -> Val
    decreases v, 1int,
{
    match v {
        TemplateValue::String(s) => Val::StrV(s@),
        TemplateValue::Bool(b) => Val::BoolV(b),
        TemplateValue::Number(t) => Val::NumV(t@),
        TemplateValue::List(items) => Val::ListV(values_view(items@)),
        TemplateValue::Object(ctx) => Val::ObjV(entries_map(ctx.entries@, 0)),
    }
}

pub open spec fn values_view(s: Seq<TemplateValue>) -> Seq<Val>
    decreases s, 0int,
{
    if s.len() == 0 {
        Seq::empty()
    } else {
        seq![value_view(s[0])] + values_view(s.drop_first())
    }
}

/// The mapping described by the entries from index `i` on; an entry binds its
/// name only where no earlier entry does.
pub open spec fn entries_map(s: Seq<(String, TemplateValue)>, i: int) -> Map<Seq<char>, Val>
    decreases s, s.len() - i,
{
    if i < 0 || i >= s.len() {
        Map::empty()
    } else {
        entries_map(s, i + 1).insert(s[i].0@, value_view(s[i].1))
    }
}

impl View for TemplateValue {
    type V = Val;

    open spec fn view(&self) -> Val {
        value_view(*self)
    }
}

impl View for Context {
    type V = Map<Seq<char>, Val>;

    open spec fn view(&self) -> Map<Seq<char>, Val> {
        entries_map(self.entries@, 0)
    }
}

/// The textual form of a value: a string as itself, a truth value as
/// `true`/`false`, a number as its decimal text, and the structured values
/// as nothing.
pub open spec fn val_text(v: Val) -> Seq<char> {
    match v {
        Val::StrV(s) => s,
        Val::BoolV(b) => if b {
            "true"@
        } else {
            "false"@
        },
        Val::NumV(t) => t,
        Val::ListV(_) => Seq::empty(),
        Val::ObjV(_) => Seq::empty(),
    }
}

impl TemplateValue {
    /// Convert the value to a string for rendering.
    pub fn as_string(&self) -> (r: String)
        ensures
            r@ == val_text(self@),
    {
        match self {
            TemplateValue::String(s) => s.clone(),
            TemplateValue::Bool(b) => if *b {
                "true".to_owned()
            } else {
                "false".to_owned()
            },
            TemplateValue::Number(t) => t.clone(),
            TemplateValue::List(_) => String::new(),
            TemplateValue::Object(_) => String::new(),
        }
    }
}

pub proof fn lemma_values_view_len(s: Seq<TemplateValue>)
    ensures
        values_view(s).len() == s.len(),
        forall|i: int| 0 <= i < s.len() ==> values_view(s)[i] == value_view(s[i]),
    decreases s,
{
    if s.len() > 0 {
        lemma_values_view_len(s.drop_first());
    }
}

/// Two entry sequences equal from `i` on, entry by entry up to value views,
/// describe the same mapping.
proof fn lemma_entries_map_congruent(
    a: Seq<(String, TemplateValue)>,
    b: Seq<(String, TemplateValue)>,
    i: int,
)
    requires
        a.len() == b.len(),
        forall|j: int|
            i <= j < a.len() ==> a[j].0@ == b[j].0@ && value_view(#[trigger] a[j].1) == value_view(
                b[j].1,
            ),
    ensures
        entries_map(a, i) == entries_map(b, i),
    decreases a.len() - i,
{
    if 0 <= i < a.len() {
        lemma_entries_map_congruent(a, b, i + 1);
    }
}

/// Prepending an entry shifts the rest of the sequence without changing the
/// mapping it describes.
proof fn lemma_entries_map_shift(
    x: (String, TemplateValue),
    s: Seq<(String, TemplateValue)>,
    i: int,
)
    requires
        0 <= i <= s.len(),
    ensures
        entries_map(seq![x] + s, i + 1) == entries_map(s, i),
    decreases s.len() - i,
{
    let t = seq![x] + s;
    if i < s.len() {
        lemma_entries_map_shift(x, s, i + 1);
        assert(t[i + 1] == s[i]);
    }
}

impl Context {
    pub fn new() -> (r: Self)
        ensures
            r@ == Map::<Seq<char>, Val>::empty(),
    {
        Context { entries: Vec::new() }
    }

    /// Look a name up; the first entry with that name decides.
    pub fn get<'a>(&'a self, key: &str) -> (r: Option<&'a TemplateValue>)
        ensures
            match r {
                Some(v) => self@.contains_key(key@) && v@ == self@[key@],
                None => !self@.contains_key(key@),
            },
    {
        let n = self.entries.len();
        let mut i: usize = 0;
        while i < n
            invariant
                n == self.entries@.len(),
                0 <= i <= n,
                self@.contains_key(key@) == entries_map(self.entries@, i as int).contains_key(key@),
                self@.contains_key(key@) ==> self@[key@] == entries_map(self.entries@, i as int)[key@],
            decreases n - i,
        {
            if str_eq(self.entries[i].0.as_str(), key) {
                return Some(&self.entries[i].1);
            }
            i = i + 1;
        }
        None
    }

    /// Bind a name, shadowing any existing binding.
    pub fn insert(&mut self, key: String, value: TemplateValue)
        ensures
            final(self)@ == old(self)@.insert(key@, value@),
    {
        let ghost s0 = self.entries@;
        self.entries.insert(0, (key, value));
        proof {
            assert(self.entries@ =~= seq![(key, value)] + s0);
            lemma_entries_map_shift((key, value), s0, 0);
        }
    }
}

/// A deep copy of a value, equal under the view.
#[verifier::loop_isolation(false)]
pub fn copy_value(v: &TemplateValue) -> (r: TemplateValue)
    ensures
        r@ == v@,
    decreases v, 1int,
{
    match v {
        TemplateValue::String(s) => TemplateValue::String(s.clone()),
        TemplateValue::Bool(b) => TemplateValue::Bool(*b),
        TemplateValue::Number(t) => TemplateValue::Number(t.clone()),
        TemplateValue::List(items) => {
            let n = items.len();
            let mut out: Vec<TemplateValue> = Vec::new();
            let mut i: usize = 0;
            while i < n
                invariant
                    n == items@.len(),
                    0 <= i <= n,
                    out@.len() == i,
                    forall|j: int| 0 <= j < i ==> value_view(#[trigger] out@[j]) == value_view(items@[j]),
                decreases n - i,
            {
                proof {
                    assert(decreases_to!(*items => items@));
                    assert(decreases_to!(items@ => items@[i as int]));
                }
                let c = copy_value(&items[i]);
                out.push(c);
                i = i + 1;
            }
            proof {
                lemma_values_view_congruent(out@, items@);
            }
            TemplateValue::List(out)
        },
        TemplateValue::Object(ctx) => TemplateValue::Object(copy_context(ctx)),
    }
}

/// A deep copy of a context, equal under the view.
#[verifier::loop_isolation(false)]
pub fn copy_context(c: &Context) -> (r: Context)
    ensures
        r@ == c@,
    decreases c, 0int,
{
    let n = c.entries.len();
    let mut out: Vec<(String, TemplateValue)> = Vec::new();
    let mut i: usize = 0;
    while i < n
        invariant
            n == c.entries@.len(),
            0 <= i <= n,
            out@.len() == i,
            forall|j: int|
                0 <= j < i ==> (#[trigger] out@[j]).0@ == c.entries@[j].0@ && value_view(out@[j].1)
                    == value_view(c.entries@[j].1),
        decreases n - i,
    {
        proof {
            assert(decreases_to!(*c => c.entries));
            assert(decreases_to!(c.entries => c.entries@));
            assert(decreases_to!(c.entries@ => c.entries@[i as int]));
            assert(decreases_to!(c.entries@[i as int] => c.entries@[i as int].1));
        }
        let key = c.entries[i].0.clone();
        let val = copy_value(&c.entries[i].1);
        out.push((key, val));
        i = i + 1;
    }
    let r = Context { entries: out };
    proof {
        lemma_entries_map_congruent(r.entries@, c.entries@, 0);
    }
    r
}

/// Sequences of values equal element by element up to views have the same
/// sequence view.
proof fn lemma_values_view_congruent(a: Seq<TemplateValue>, b: Seq<TemplateValue>)
    requires
        a.len() == b.len(),
        forall|j: int| 0 <= j < a.len() ==> value_view(#[trigger] a[j]) == value_view(b[j]),
    ensures
        values_view(a) == values_view(b),
    decreases a,
{
    if a.len() > 0 {
        assert(forall|j: int|
            0 <= j < a.drop_first().len() ==> value_view(#[trigger] a.drop_first()[j])
                == value_view(b.drop_first()[j])) by {
            assert(forall|j: int|
                0 <= j < a.drop_first().len() ==> a.drop_first()[j] == a[j + 1]
                    && b.drop_first()[j] == b[j + 1]);
        }
        lemma_values_view_congruent(a.drop_first(), b.drop_first());
    }
}

} // verus!
