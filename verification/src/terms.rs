//! Names, paths and terms.
//!
//! A term is a number, a string, a truth value, a variable, a list of terms,
//! a dictionary from names to terms, or a pattern. What a term stands for is
//! its view, a [`TermView`]; two terms are equal when their views are. A
//! dictionary is a list of entries in which the first entry of a name
//! counts: its view is a map.

use crate::assoc::assoc_map;
use crate::assoc::distinct_keys;
use crate::assoc::first_index;
use crate::assoc::has_key;
use crate::assoc::is_first;
use crate::assoc::key_at;
use crate::assoc::lemma_absent;
use crate::assoc::lemma_assoc_empty;
use crate::assoc::lemma_first_exists;
use crate::assoc::lemma_first_is;
use crate::assoc::lemma_push_fresh;
use crate::assoc::lemma_push_fresh_distinct;
use crate::assoc::lemma_update_distinct;
use crate::assoc::lemma_update_first;
use vstd::prelude::*;

verus! {

/// A name.
#[derive(Debug, PartialEq, Eq, Hash)]
pub struct Symbol(pub String);

impl View for Symbol {
    type V = Seq<char>;

    open spec fn view(&self) -> Seq<char> {
        self.0@
    }
}

impl Clone for Symbol {
    fn clone(&self) -> (copy: Self)
        ensures
            copy@ == self@,
    {
        Symbol(self.0.clone())
    }
}

impl Symbol {
    /// The symbol named `name`.
    pub fn new(name: &str) -> (symbol: Symbol)
        ensures
            symbol@ == name@,
    {
        Symbol(name.to_owned())
    }

    /// Whether both are the same name.
    pub fn equals(&self, other: &Symbol) -> (same: bool)
        ensures
            same == (self@ == other@),
    {
        self.0 == other.0
    }
}

/// A name, alone or within a scope that is named too.
#[derive(Clone, Debug)]
pub struct Path {
    scope: Option<Symbol>,
    name: Symbol,
}

/// What a path stands for.
pub ghost struct PathView {
    pub scope: Option<Seq<char>>,
    pub name: Seq<char>,
}

impl View for Path {
    type V = PathView;

    closed spec fn view(&self) -> PathView {
        PathView {
            scope: match self.scope {
                Some(scope) => Some(scope@),
                None => None,
            },
            name: self.name@,
        }
    }
}

impl Path {
    /// The path of a name that stands alone.
    pub fn with_name(name: Symbol) -> (path: Path)
        ensures
            path@ == (PathView { scope: None, name: name@ }),
    {
        Path { scope: None, name }
    }

    /// The path of a name within the scope `scope`.
    pub fn with_scope(scope: Symbol, name: Symbol) -> (path: Path)
        ensures
            path@ == (PathView { scope: Some(scope@), name: name@ }),
    {
        Path { scope: Some(scope), name }
    }

    /// The scope that the path names, if it names one.
    pub fn scope(&self) -> (scope: Option<&Symbol>)
        ensures
            match scope {
                Some(scope) => self@.scope == Some(scope@),
                None => self@.scope is None,
            },
    {
        self.scope.as_ref()
    }

    /// The name at the end of the path.
    pub fn name(&self) -> (name: &Symbol)
        ensures
            name@ == self@.name,
    {
        &self.name
    }
}

/// A term.
#[derive(Debug)]
pub struct Term {
    pub value: Value,
}

/// What a term is.
#[derive(Debug)]
pub enum Value {
    Integer(i64),
    String(String),
    Boolean(bool),
    Variable(Symbol),
    List(Vec<Term>),
    Dictionary(Dictionary),
    Pattern(Pattern),
}

/// A constraint on what a term may be.
#[derive(Debug)]
pub enum Pattern {
    /// Something with the fields of the dictionary.
    Dictionary(Dictionary),
    /// An instance of a type, with fields.
    Instance(InstanceLiteral),
}

/// The name of a type and terms for some of its fields.
#[derive(Debug)]
pub struct InstanceLiteral {
    pub tag: Symbol,
    pub fields: Dictionary,
}

/// Names bound to terms. Where a name has several entries, the first one
/// counts.
#[derive(Debug)]
pub struct Dictionary {
    pub fields: Vec<(Symbol, Term)>,
}

/// What a term stands for.
pub ghost enum TermView {
    Integer(int),
    String(Seq<char>),
    Boolean(bool),
    Variable(Seq<char>),
    List(Seq<TermView>),
    Dictionary(Map<Seq<char>, TermView>),
    Pattern(PatternView),
}

/// What a pattern stands for.
pub ghost enum PatternView {
    Dictionary(Map<Seq<char>, TermView>),
    Instance(InstanceView),
}

/// What an instance literal stands for.
pub ghost struct InstanceView {
    pub tag: Seq<char>,
    pub fields: Map<Seq<char>, TermView>,
}

/// The views of a list of terms.
pub open spec fn terms_view(terms: Seq<Term>) -> Seq<TermView>
    decreases terms,
{
    if terms.len() == 0 {
        Seq::empty()
    } else {
        terms_view(terms.drop_last()).push(terms.last().view())
    }
}

/// The entries of a dictionary as pairs of views.
pub open spec fn entries_view(entries: Seq<(Symbol, Term)>) -> Seq<(Seq<char>, TermView)>
    decreases entries,
{
    if entries.len() == 0 {
        Seq::empty()
    } else {
        entries_view(entries.drop_last()).push((entries.last().0@, entries.last().1.view()))
    }
}

impl Term {
    pub open spec fn view(&self) -> TermView
        decreases self,
    {
        self.value.view()
    }
}

impl Value {
    pub open spec fn view(&self) -> TermView
        decreases self,
    {
        match self {
            Value::Integer(i) => TermView::Integer(*i as int),
            Value::String(s) => TermView::String(s@),
            Value::Boolean(b) => TermView::Boolean(*b),
            Value::Variable(name) => TermView::Variable(name@),
            Value::List(items) => TermView::List(terms_view(items@)),
            Value::Dictionary(d) => TermView::Dictionary(d.view()),
            Value::Pattern(p) => TermView::Pattern(p.view()),
        }
    }
}

impl Pattern {
    pub open spec fn view(&self) -> PatternView
        decreases self,
    {
        match self {
            Pattern::Dictionary(d) => PatternView::Dictionary(d.view()),
            Pattern::Instance(i) => PatternView::Instance(i.view()),
        }
    }
}

impl InstanceLiteral {
    pub open spec fn view(&self) -> InstanceView
        decreases self,
    {
        InstanceView { tag: self.tag@, fields: self.fields.view() }
    }
}

impl Dictionary {
    /// The map from each name to the term of its first entry.
    pub open spec fn view(&self) -> Map<Seq<char>, TermView>
        decreases self,
    {
        assoc_map(entries_view(self.fields@))
    }
}

/// Whether `outer` binds every name that `inner` binds, and to the same
/// term. `outer` may bind more names.
pub open spec fn fields_included(
    inner: Map<Seq<char>, TermView>,
    outer: Map<Seq<char>, TermView>,
) -> bool {
    forall|name: Seq<char>| #[trigger]
        inner.contains_key(name) ==> outer.contains_key(name) && outer[name] == inner[name]
}

/// `terms_view` works item by item.
pub proof fn lemma_terms_view(terms: Seq<Term>)
    ensures
        terms_view(terms).len() == terms.len(),
        forall|i: int| 0 <= i < terms.len() ==> terms_view(terms)[i] == terms[i].view(),
    decreases terms.len(),
{
    if terms.len() > 0 {
        lemma_terms_view(terms.drop_last());
    }
}

/// `entries_view` works entry by entry.
pub proof fn lemma_entries_view(entries: Seq<(Symbol, Term)>)
    ensures
        entries_view(entries).len() == entries.len(),
        forall|i: int|
            0 <= i < entries.len() ==> entries_view(entries)[i] == (
                entries[i].0@,
                entries[i].1.view(),
            ),
    decreases entries.len(),
{
    if entries.len() > 0 {
        lemma_entries_view(entries.drop_last());
    }
}

impl Dictionary {
    /// The list of pairs that the entries stand for.
    pub open spec fn pairs(&self) -> Seq<(Seq<char>, TermView)> {
        entries_view(self.fields@)
    }

    /// No name has two entries. A dictionary that has a name twice is read
    /// by the first entry of that name; [`Dictionary::insert`] never makes
    /// one.
    pub open spec fn well_formed(&self) -> bool {
        distinct_keys(self.pairs())
    }

    /// The dictionary without entries.
    pub fn new() -> (empty: Dictionary)
        ensures
            empty@ == Map::<Seq<char>, TermView>::empty(),
            empty.well_formed(),
    {
        let empty = Dictionary { fields: Vec::new() };
        proof {
            lemma_assoc_empty::<Seq<char>, TermView>();
        }
        empty
    }

    /// The index of the entry that answers for `key`: the first one that
    /// carries it.
    pub fn position(&self, key: &Symbol) -> (found: Option<usize>)
        ensures
            match found {
                Some(i) => is_first(self.pairs(), key@, i as int),
                None => !has_key(self.pairs(), key@),
            },
    {
        proof {
            lemma_entries_view(self.fields@);
        }
        let mut i: usize = 0;
        while i < self.fields.len()
            invariant
                i <= self.fields.len(),
                self.pairs().len() == self.fields.len(),
                forall|j: int|
                    0 <= j < self.fields.len() ==> self.pairs()[j] == (
                        self.fields[j].0@,
                        self.fields[j].1.view(),
                    ),
                forall|j: int| 0 <= j < i ==> !key_at(self.pairs(), key@, j),
            decreases self.fields.len() - i,
        {
            if self.fields[i].0.equals(key) {
                return Some(i);
            }
            i += 1;
        }
        proof {
            assert forall|j: int| 0 <= j < self.pairs().len() implies self.pairs()[j].0 != key@ by {
                assert(!key_at(self.pairs(), key@, j));
            }
            lemma_absent(self.pairs(), key@);
        }
        None
    }

    /// The term that `key` is bound to.
    pub fn get(&self, key: &Symbol) -> (found: Option<&Term>)
        ensures
            match found {
                Some(value) => self@.contains_key(key@) && self@[key@] == value@,
                None => !self@.contains_key(key@),
            },
    {
        match self.position(key) {
            Some(i) => {
                proof {
                    lemma_entries_view(self.fields@);
                    lemma_first_is(self.pairs(), key@, i as int);
                }
                Some(&self.fields[i].1)
            },
            None => None,
        }
    }

    /// Whether `key` is bound.
    pub fn contains_key(&self, key: &Symbol) -> (found: bool)
        ensures
            found == self@.contains_key(key@),
    {
        self.get(key).is_some()
    }

    /// Binds `key` to `value`, replacing what `key` was bound to.
    pub fn insert(&mut self, key: Symbol, value: Term)
        ensures
            final(self)@ == old(self)@.insert(key@, value@),
            old(self).well_formed() ==> final(self).well_formed(),
    {
        let ghost before = self.pairs();
        let ghost name = key@;
        let ghost bound = value@;
        proof {
            lemma_entries_view(self.fields@);
        }
        match self.position(&key) {
            Some(i) => {
                self.fields.set(i, (key, value));
                proof {
                    lemma_entries_view(self.fields@);
                    assert(self.pairs() =~= before.update(i as int, (name, bound)));
                    lemma_update_first(before, name, i as int, bound);
                    if distinct_keys(before) {
                        lemma_update_distinct(before, i as int, bound);
                    }
                }
            },
            None => {
                self.fields.push((key, value));
                proof {
                    lemma_entries_view(self.fields@);
                    assert(self.pairs() =~= before.push((name, bound)));
                    lemma_push_fresh(before, name, bound);
                    if distinct_keys(before) {
                        lemma_push_fresh_distinct(before, name, bound);
                    }
                }
            },
        }
    }
}

impl Term {
    /// The term that is `value`.
    pub fn new(value: Value) -> (term: Term)
        ensures
            term@ == value@,
    {
        Term { value }
    }

    /// What the term is.
    pub fn value(&self) -> (value: &Value)
        ensures
            value@ == self@,
    {
        &self.value
    }
}

/// `==` on terms is [`Term::equals`].
impl PartialEq for Term {
    fn eq(&self, other: &Term) -> (same: bool) {
        self.equals(other)
    }
}

impl vstd::std_specs::cmp::PartialEqSpecImpl for Term {
    open spec fn obeys_eq_spec() -> bool {
        true
    }

    open spec fn eq_spec(&self, other: &Term) -> bool {
        self@ == other@
    }
}

impl Term {
    /// Whether both terms stand for the same: the same kind of term with the
    /// same content, where lists are compared item by item and dictionaries
    /// as maps, whatever the order of their entries.
    pub fn equals(&self, other: &Term) -> (same: bool)
        ensures
            same == (self@ == other@),
        decreases self, 0int,
    {
        self.value.equals(&other.value)
    }
}

impl Value {
    /// Whether both stand for the same.
    pub fn equals(&self, other: &Value) -> (same: bool)
        ensures
            same == (self@ == other@),
        decreases self, 0int,
    {
        match (self, other) {
            (Value::Integer(a), Value::Integer(b)) => *a == *b,
            (Value::String(a), Value::String(b)) => *a == *b,
            (Value::Boolean(a), Value::Boolean(b)) => *a == *b,
            (Value::Variable(a), Value::Variable(b)) => a.equals(b),
            (Value::List(a), Value::List(b)) => list_equals(a, b),
            (Value::Dictionary(a), Value::Dictionary(b)) => a.equals(b),
            (Value::Pattern(a), Value::Pattern(b)) => a.equals(b),
            _ => false,
        }
    }
}

/// Whether both lists have the same length and equal terms at each place.
pub fn list_equals(left: &Vec<Term>, right: &Vec<Term>) -> (same: bool)
    ensures
        same == (terms_view(left@) == terms_view(right@)),
    decreases left, 0int,
{
    proof {
        lemma_terms_view(left@);
        lemma_terms_view(right@);
    }
    if left.len() != right.len() {
        return false;
    }
    let mut i: usize = 0;
    while i < left.len()
        invariant
            i <= left.len(),
            left.len() == right.len(),
            terms_view(left@).len() == left.len(),
            terms_view(right@).len() == right.len(),
            forall|j: int| 0 <= j < left.len() ==> terms_view(left@)[j] == left[j].view(),
            forall|j: int| 0 <= j < right.len() ==> terms_view(right@)[j] == right[j].view(),
            forall|j: int| 0 <= j < i ==> left[j].view() == right[j].view(),
        decreases left.len() - i,
    {
        if !left[i].equals(&right[i]) {
            assert(terms_view(left@)[i as int] != terms_view(right@)[i as int]);
            return false;
        }
        i += 1;
    }
    assert(terms_view(left@) =~= terms_view(right@));
    true
}

impl Pattern {
    /// Whether both stand for the same.
    pub fn equals(&self, other: &Pattern) -> (same: bool)
        ensures
            same == (self@ == other@),
        decreases self, 0int,
    {
        match (self, other) {
            (Pattern::Dictionary(a), Pattern::Dictionary(b)) => a.equals(b),
            (Pattern::Instance(a), Pattern::Instance(b)) => a.equals(b),
            _ => false,
        }
    }
}

impl InstanceLiteral {
    /// Whether both name the same type and bind the same names to equal
    /// terms.
    pub fn equals(&self, other: &InstanceLiteral) -> (same: bool)
        ensures
            same == (self@ == other@),
        decreases self, 0int,
    {
        self.tag.equals(&other.tag) && self.fields.equals(&other.fields)
    }
}

impl Dictionary {
    /// Whether `other` binds every name that `self` binds, and to an equal
    /// term. `other` may bind more names.
    pub fn included_in(&self, other: &Dictionary) -> (included: bool)
        ensures
            included == fields_included(self@, other@),
        decreases self, 0int,
    {
        proof {
            lemma_entries_view(self.fields@);
            lemma_entries_view(other.fields@);
        }
        let mut i: usize = 0;
        while i < self.fields.len()
            invariant
                i <= self.fields.len(),
                self.pairs().len() == self.fields.len(),
                other.pairs().len() == other.fields.len(),
                forall|j: int|
                    0 <= j < self.fields.len() ==> self.pairs()[j] == (
                        self.fields[j].0@,
                        self.fields[j].1.view(),
                    ),
                forall|j: int|
                    0 <= j < other.fields.len() ==> other.pairs()[j] == (
                        other.fields[j].0@,
                        other.fields[j].1.view(),
                    ),
                forall|j: int|
                    0 <= j < i && is_first(self.pairs(), self.pairs()[j].0, j)
                        ==> other@.contains_key(self.pairs()[j].0) && other@[self.pairs()[j].0]
                        == self.pairs()[j].1,
            decreases self.fields.len() - i,
        {
            // An entry counts where it is the first one of its name.
            let key = &self.fields[i].0;
            let counts = match self.position(key) {
                Some(first) => first == i,
                None => false,
            };
            if counts {
                proof {
                    lemma_first_is(self.pairs(), key@, i as int);
                }
                match other.position(key) {
                    Some(j) => {
                        proof {
                            lemma_first_is(other.pairs(), key@, j as int);
                        }
                        if !self.fields[i].1.equals(&other.fields[j].1) {
                            return false;
                        }
                    },
                    None => {
                        return false;
                    },
                }
            }
            i += 1;
        }
        proof {
            assert forall|k: Seq<char>| #[trigger]
                self@.contains_key(k) implies other@.contains_key(k) && other@[k] == self@[k] by {
                let at = choose|at: int| key_at(self.pairs(), k, at);
                lemma_first_exists(self.pairs(), k, at);
                let f = first_index(self.pairs(), k);
                lemma_first_is(self.pairs(), k, f);
            }
        }
        true
    }

    /// Whether `other` binds every name that `self` binds.
    pub fn names_included_in(&self, other: &Dictionary) -> (included: bool)
        ensures
            included == self@.dom().subset_of(other@.dom()),
    {
        proof {
            lemma_entries_view(self.fields@);
        }
        let mut i: usize = 0;
        while i < self.fields.len()
            invariant
                i <= self.fields.len(),
                self.pairs().len() == self.fields.len(),
                forall|j: int|
                    0 <= j < self.fields.len() ==> self.pairs()[j] == (
                        self.fields[j].0@,
                        self.fields[j].1.view(),
                    ),
                forall|j: int| 0 <= j < i ==> other@.contains_key(self.pairs()[j].0),
            decreases self.fields.len() - i,
        {
            if !other.contains_key(&self.fields[i].0) {
                proof {
                    assert(key_at(self.pairs(), self.fields[i as int].0@, i as int));
                }
                return false;
            }
            i += 1;
        }
        proof {
            assert forall|k: Seq<char>| self@.dom().contains(k) implies other@.dom().contains(
                k,
            ) by {
                let at = choose|at: int| key_at(self.pairs(), k, at);
                assert(other@.contains_key(self.pairs()[at].0));
            }
        }
        true
    }

    /// Whether both bind the same names to equal terms.
    pub fn equals(&self, other: &Dictionary) -> (same: bool)
        ensures
            same == (self@ == other@),
        decreases self, 1int,
    {
        let same = self.included_in(other) && other.names_included_in(self);
        proof {
            if same {
                assert(self@ =~= other@);
            }
        }
        same
    }
}

} // verus!
