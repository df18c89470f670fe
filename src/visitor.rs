//! The two catalogs, and the visitor that fills them from traversal events.
use vstd::prelude::*;
use crate::expr::{CExpression, ExprV, MyExpression, simplify, transform};
use crate::init::{BindingV, CInitializer, bindings_view, fill, fill_spec};

verus! {

/// A struct type: its tag and the names of its fields, in the order seen.
#[derive(Debug, PartialEq, Eq)]
pub struct MyStructType {
    pub name: String,
    pub fields: Vec<String>,
}

/// A struct type as text: the tag and the field names.
pub type TypeV = (Seq<char>, Seq<Seq<char>>);

impl View for MyStructType {
    type V = TypeV;

    open spec fn view(&self) -> TypeV {
        (self.name@, self.fields@.map_values(|f: String| f@))
    }
}

impl MyStructType {
    /// A struct type named `name` with no field yet.
    pub fn new(name: &String) -> (r: MyStructType)
        ensures
            r@.0 == name@,
            r@.1 == Seq::<Seq<char>>::empty(),
    {
        let r = MyStructType { name: name.clone(), fields: Vec::new() };
        assert(r@.1 =~= Seq::<Seq<char>>::empty());
        r
    }
}

/// An instance of a struct type: the type's tag, the instance's name, and
/// its field bindings in the order they were bound.
#[derive(Debug, PartialEq, Eq)]
pub struct MyStruct {
    pub typ: String,
    pub name: String,
    pub values: Vec<(String, MyExpression)>,
}

/// A declared value: a struct instance, or a scalar bound to one expression.
#[derive(Debug, PartialEq, Eq)]
pub enum MyValue {
    Struct(MyStruct),
    Scalar { name: String, value: MyExpression },
}

/// What a [`MyValue`] holds, as text.
pub enum ValueV {
    Struct { typ: Seq<char>, name: Seq<char>, values: Seq<BindingV> },
    Scalar { name: Seq<char>, value: ExprV },
}

impl View for MyValue {
    type V = ValueV;

    open spec fn view(&self) -> ValueV {
        match self {
            MyValue::Struct(s) => ValueV::Struct {
                typ: s.typ@,
                name: s.name@,
                values: bindings_view(s.values@),
            },
            MyValue::Scalar { name, value } => ValueV::Scalar { name: name@, value: value@ },
        }
    }
}

impl MyValue {
    /// A struct instance of type `typ` named `name`, with no binding yet.
    pub fn new_struct(typ: &String, name: &String) -> (r: MyValue)
        ensures
            r@ == (ValueV::Struct { typ: typ@, name: name@, values: seq![] }),
    {
        let r = MyValue::Struct(MyStruct { typ: typ.clone(), name: name.clone(), values: Vec::new() });
        assert(bindings_view(Seq::<(String, MyExpression)>::empty()) =~= seq![]);
        r
    }

    /// A scalar named `name` bound to `value`.
    pub fn new_scalar(name: &String, value: MyExpression) -> (r: MyValue)
        ensures
            r@ == (ValueV::Scalar { name: name@, value: value@ }),
    {
        MyValue::Scalar { name: name.clone(), value }
    }
}

/// Why a traversal stopped.
#[derive(Debug, PartialEq, Eq)]
pub enum ExtractError {
    /// A variable declarator that is not a plain identifier.
    UnexpectedDeclarator,
    /// A struct initializer under a tag that no field has been recorded for.
    UnknownStructType(String),
}

pub enum ErrV {
    UnexpectedDeclarator,
    UnknownStructType(Seq<char>),
}

impl View for ExtractError {
    type V = ErrV;

    open spec fn view(&self) -> ErrV {
        match self {
            ExtractError::UnexpectedDeclarator => ErrV::UnexpectedDeclarator,
            ExtractError::UnknownStructType(t) => ErrV::UnknownStructType(t@),
        }
    }
}

/// One node of the syntax tree that the visitor reacts to.
#[derive(Debug)]
pub enum TraversalEvent {
    /// A struct type node, with its tag if it has one.
    StructType(Option<String>),
    /// A field declaration: for each declarator, its name where it is a
    /// plain identifier.
    StructField(Vec<Option<String>>),
    /// A variable declarator: its name where it is a plain identifier, and
    /// its initializer if it has one.
    InitDeclarator { name: Option<String>, initializer: Option<CInitializer> },
}

/// Key of a declared value: the struct tag current at the declaration, and
/// the declared name.
pub type ValueKey = (Option<String>, String);

pub type KeyV = (Option<Seq<char>>, Seq<char>);

pub open spec fn opt_view(o: Option<String>) -> Option<Seq<char>> {
    match o {
        Some(s) => Some(s@),
        None => None,
    }
}

pub open spec fn key_view(k: ValueKey) -> KeyV {
    (opt_view(k.0), k.1@)
}

pub open spec fn entry_view(e: (ValueKey, MyValue)) -> (KeyV, ValueV) {
    (key_view(e.0), e.1@)
}

/// The state of a traversal as text: the current struct tag, the struct
/// type catalog and the value catalog, each catalog in insertion order.
pub struct VisitorV {
    pub cur: Option<Seq<char>>,
    pub types: Seq<TypeV>,
    pub values: Seq<(KeyV, ValueV)>,
}

/// The state before any event.
pub open spec fn fresh() -> VisitorV {
    VisitorV { cur: None, types: seq![], values: seq![] }
}

pub open spec fn has_type(types: Seq<TypeV>, tag: Seq<char>) -> bool {
    exists|i: int| 0 <= i < types.len() && (#[trigger] types[i]).0 == tag
}

pub open spec fn type_index(types: Seq<TypeV>, tag: Seq<char>) -> int {
    choose|i: int| 0 <= i < types.len() && (#[trigger] types[i]).0 == tag
}

/// The field names recorded for `tag`, if any.
pub open spec fn fields_of(types: Seq<TypeV>, tag: Seq<char>) -> Option<Seq<Seq<char>>> {
    if has_type(types, tag) {
        Some(types[type_index(types, tag)].1)
    } else {
        None
    }
}

pub open spec fn types_unique(types: Seq<TypeV>) -> bool {
    forall|i: int, j: int|
        0 <= i < types.len() && 0 <= j < types.len() && (#[trigger] types[i]).0 == (#[trigger] types[j]).0
            ==> i == j
}

/// The type catalog after field `f` is seen under `tag`: appended to the
/// tag's entry, which is created when missing.
pub open spec fn add_field(types: Seq<TypeV>, tag: Seq<char>, f: Seq<char>) -> Seq<TypeV> {
    if has_type(types, tag) {
        let i = type_index(types, tag);
        types.update(i, (tag, types[i].1.push(f)))
    } else {
        types.push((tag, seq![f]))
    }
}

/// The type catalog after the declarators `names` of one field declaration
/// are seen under `tag`: the plain names are added in order, the others
/// skipped.
pub open spec fn add_fields(types: Seq<TypeV>, tag: Seq<char>, names: Seq<Option<Seq<char>>>) -> Seq<TypeV>
    decreases names.len(),
{
    if names.len() == 0 {
        types
    } else {
        let t = add_fields(types, tag, names.drop_last());
        match names.last() {
            Some(f) => add_field(t, tag, f),
            None => t,
        }
    }
}

pub open spec fn has_value(values: Seq<(KeyV, ValueV)>, key: KeyV) -> bool {
    exists|i: int| 0 <= i < values.len() && (#[trigger] values[i]).0 == key
}

pub open spec fn value_index(values: Seq<(KeyV, ValueV)>, key: KeyV) -> int {
    choose|i: int| 0 <= i < values.len() && (#[trigger] values[i]).0 == key
}

/// The value stored under `key`, if any.
pub open spec fn value_of(values: Seq<(KeyV, ValueV)>, key: KeyV) -> Option<ValueV> {
    if has_value(values, key) {
        Some(values[value_index(values, key)].1)
    } else {
        None
    }
}

pub open spec fn values_unique(values: Seq<(KeyV, ValueV)>) -> bool {
    forall|i: int, j: int|
        0 <= i < values.len() && 0 <= j < values.len() && (#[trigger] values[i]).0 == (#[trigger] values[j]).0
            ==> i == j
}

/// The state after a struct type node with tag `tag`: a tag becomes the
/// current one, an untagged node changes nothing.
pub open spec fn on_struct_type(s: VisitorV, tag: Option<Seq<char>>) -> VisitorV {
    match tag {
        Some(t) => VisitorV { cur: Some(t), ..s },
        None => s,
    }
}

/// The state after a field declaration: its plain names go to the current
/// tag's entry; with no current tag nothing changes.
pub open spec fn on_struct_field(s: VisitorV, names: Seq<Option<Seq<char>>>) -> VisitorV {
    match s.cur {
        Some(tag) => VisitorV { types: add_fields(s.types, tag, names), ..s },
        None => s,
    }
}

/// The bindings of the first `n` initializer elements, each against the
/// field name at its position.
pub open spec fn flatten_upto(xs: Vec<CInitializer>, fields: Seq<Seq<char>>, n: nat) -> Seq<BindingV>
    decreases n,
{
    if n == 0 || n > xs.len() || n > fields.len() {
        seq![]
    } else {
        flatten_upto(xs, fields, (n - 1) as nat) + fill_spec(fields[n - 1], xs[n - 1])
    }
}

/// The bindings of a brace list against a field list: elements and fields
/// are paired by position up to the shorter of the two, and each element's
/// leaves are bound to the field of its position.
pub open spec fn flatten(xs: Vec<CInitializer>, fields: Seq<Seq<char>>) -> Seq<BindingV> {
    flatten_upto(xs, fields, if xs.len() < fields.len() { xs.len() as nat } else { fields.len() })
}

/// A struct instance with `b` appended to its bindings; a scalar unchanged.
pub open spec fn append_bindings(v: ValueV, b: Seq<BindingV>) -> ValueV {
    match v {
        ValueV::Struct { typ, name, values } => ValueV::Struct { typ, name, values: values + b },
        ValueV::Scalar { .. } => v,
    }
}

/// The state after a variable declarator named `name` with initializer
/// `init`, or why the traversal stops there.
///
/// - A declarator that is not a plain identifier is an error.
/// - A single expression binds a scalar under `(cur, name)` unless that key
///   is taken: the first value stays.
/// - A brace list under a current tag `t` binds, under `(cur, name)`, a
///   struct instance of `t` whose bindings are the list flattened against
///   the fields of `t`; an instance already under that key gets the new
///   bindings appended; a scalar already under that key stays as it is. A
///   tag with no recorded fields is an error.
/// - Anything else changes nothing.
pub open spec fn on_init_declarator(s: VisitorV, name: Option<Seq<char>>, init: Option<CInitializer>) -> Result<VisitorV, ErrV> {
    match name {
        None => Err(ErrV::UnexpectedDeclarator),
        Some(n) => {
            let key = (s.cur, n);
            match init {
                None => Ok(s),
                Some(CInitializer::Expression(e)) => if has_value(s.values, key) {
                    Ok(s)
                } else {
                    Ok(VisitorV { values: s.values.push((key, ValueV::Scalar { name: n, value: simplify(e) })), ..s })
                },
                Some(CInitializer::List(xs)) => match s.cur {
                    None => Ok(s),
                    Some(tag) => if has_value(s.values, key) && s.values[value_index(s.values, key)].1 is Scalar {
                        Ok(s)
                    } else if !has_type(s.types, tag) {
                        Err(ErrV::UnknownStructType(tag))
                    } else {
                        let b = flatten(xs, s.types[type_index(s.types, tag)].1);
                        if has_value(s.values, key) {
                            let i = value_index(s.values, key);
                            Ok(VisitorV { values: s.values.update(i, (key, append_bindings(s.values[i].1, b))), ..s })
                        } else {
                            Ok(VisitorV {
                                values: s.values.push((key, ValueV::Struct { typ: tag, name: n, values: b })),
                                ..s
                            })
                        }
                    },
                },
            }
        },
    }
}

/// The traversal state after a single event, or why the traversal stops.
pub open spec fn step(s: VisitorV, e: TraversalEvent) -> Result<VisitorV, ErrV> {
    match e {
        TraversalEvent::StructType(tag) => Ok(on_struct_type(s, opt_view(tag))),
        TraversalEvent::StructField(ds) => Ok(on_struct_field(s, ds@.map_values(|d: Option<String>| opt_view(d)))),
        TraversalEvent::InitDeclarator { name, initializer } => on_init_declarator(s, opt_view(name), initializer),
    }
}

/// The traversal state after the events `evs`, one after the other, or the
/// error of the first event that stops it.
pub open spec fn run(s: VisitorV, evs: Seq<TraversalEvent>) -> Result<VisitorV, ErrV>
    decreases evs.len(),
{
    if evs.len() == 0 {
        Ok(s)
    } else {
        match run(s, evs.drop_last()) {
            Ok(t) => step(t, evs.last()),
            Err(e) => Err(e),
        }
    }
}

/// The traversal state: the current struct tag and the two catalogs.
pub struct MyVisitor {
    cur_struct: Option<String>,
    struct_types: Vec<MyStructType>,
    values: Vec<(ValueKey, MyValue)>,
}

impl View for MyVisitor {
    type V = VisitorV;

    closed spec fn view(&self) -> VisitorV {
        VisitorV {
            cur: opt_view(self.cur_struct),
            types: self.struct_types@.map_values(|t: MyStructType| t@),
            values: self.values@.map_values(|e: (ValueKey, MyValue)| entry_view(e)),
        }
    }
}

/// Whether two optional strings hold the same text.
fn same_opt(a: &Option<String>, b: &Option<String>) -> (r: bool)
    ensures
        r == (opt_view(*a) == opt_view(*b)),
{
    match (a, b) {
        (Some(x), Some(y)) => *x == *y,
        (None, None) => true,
        _ => false,
    }
}

fn copy_opt(a: &Option<String>) -> (r: Option<String>)
    ensures
        opt_view(r) == opt_view(*a),
{
    match a {
        Some(x) => Some(x.clone()),
        None => None,
    }
}

/// Appends `b` to the bindings of a struct instance; leaves a scalar as it is.
fn append_to(v: &mut MyValue, b: &mut Vec<(String, MyExpression)>)
    ensures
        final(v)@ == append_bindings(old(v)@, bindings_view(old(b)@)),
{
    match v {
        MyValue::Struct(m) => {
            let ghost old_values = m.values@;
            m.values.append(b);
            assert(bindings_view(m.values@) =~= bindings_view(old_values) + bindings_view(old(b)@));
        },
        MyValue::Scalar { .. } => {},
    }
}

impl MyVisitor {
    /// Each tag names at most one struct type, each key at most one value.
    pub open spec fn wf(&self) -> bool {
        &&& types_unique(self@.types)
        &&& values_unique(self@.values)
    }

    /// A visitor with no current tag and empty catalogs.
    pub fn new() -> (r: MyVisitor)
        ensures
            r.wf(),
            r@ == fresh(),
    {
        let r = MyVisitor { cur_struct: None, struct_types: Vec::new(), values: Vec::new() };
        assert(r@.types =~= seq![]);
        assert(r@.values =~= seq![]);
        r
    }

    /// The struct type catalog, in insertion order.
    pub fn struct_types(&self) -> (r: &Vec<MyStructType>)
        ensures
            r@.map_values(|t: MyStructType| t@) == self@.types,
    {
        &self.struct_types
    }

    /// The value catalog, in insertion order.
    pub fn values(&self) -> (r: &Vec<(ValueKey, MyValue)>)
        ensures
            r@.map_values(|e: (ValueKey, MyValue)| entry_view(e)) == self@.values,
    {
        &self.values
    }

    /// The current struct tag.
    pub fn current_struct(&self) -> (r: &Option<String>)
        ensures
            opt_view(*r) == self@.cur,
    {
        &self.cur_struct
    }

    /// The position of the struct type named `tag`.
    fn find_type(&self, tag: &String) -> (r: Option<usize>)
        requires
            self.wf(),
        ensures
            match r {
                Some(i) => i < self@.types.len() && has_type(self@.types, tag@) && i == type_index(
                    self@.types,
                    tag@,
                ),
                None => !has_type(self@.types, tag@),
            },
    {
        let mut i: usize = 0;
        while i < self.struct_types.len()
            invariant
                self.wf(),
                i <= self.struct_types.len(),
                self@.types.len() == self.struct_types.len(),
                forall|j: int| 0 <= j < i ==> (#[trigger] self@.types[j]).0 != tag@,
            decreases self.struct_types.len() - i,
        {
            if self.struct_types[i].name == *tag {
                assert(self@.types[i as int].0 == tag@);
                assert(has_type(self@.types, tag@));
                let ghost k = type_index(self@.types, tag@);
                assert(self@.types[k].0 == tag@);
                return Some(i);
            }
            i = i + 1;
        }
        None
    }

    /// The position of the value stored under `(cur, name)`.
    fn find_value(&self, cur: &Option<String>, name: &String) -> (r: Option<usize>)
        requires
            self.wf(),
        ensures
            match r {
                Some(i) => i < self@.values.len() && has_value(self@.values, (opt_view(*cur), name@))
                    && i == value_index(self@.values, (opt_view(*cur), name@)),
                None => !has_value(self@.values, (opt_view(*cur), name@)),
            },
    {
        let ghost key = (opt_view(*cur), name@);
        let mut i: usize = 0;
        while i < self.values.len()
            invariant
                self.wf(),
                i <= self.values.len(),
                key == (opt_view(*cur), name@),
                self@.values.len() == self.values.len(),
                forall|j: int| 0 <= j < i ==> (#[trigger] self@.values[j]).0 != key,
            decreases self.values.len() - i,
        {
            let ghost e = self.values@[i as int];
            assert(self@.values[i as int] == entry_view(e));
            let same_cur = same_opt(&self.values[i].0.0, cur);
            let same_name = self.values[i].0.1 == *name;
            assert(same_cur == (opt_view(e.0.0) == opt_view(*cur)));
            assert(same_name == (e.0.1@ == name@));
            if same_cur && same_name {
                assert(self@.values[i as int].0 == key);
                assert(has_value(self@.values, key));
                let ghost k = value_index(self@.values, key);
                assert(self@.values[k].0 == key);
                return Some(i);
            }
            i = i + 1;
        }
        None
    }

    /// Appends field `f` to the entry of `tag`, creating it when missing.
    fn record_field(&mut self, tag: &String, f: &String)
        requires
            old(self).wf(),
        ensures
            final(self).wf(),
            final(self)@ == (VisitorV { types: add_field(old(self)@.types, tag@, f@), ..old(self)@ }),
    {
        let ghost old_types = self@.types;
        match self.find_type(tag) {
            Some(i) => {
                let ghost old_fields = self.struct_types@[i as int].fields@;
                self.struct_types[i].fields.push(f.clone());
                assert(self.struct_types@[i as int].fields@.map_values(|x: String| x@) =~= old_fields.map_values(
                    |x: String| x@,
                ).push(f@));
                assert(self@.types =~= old_types.update(i as int, (tag@, old_types[i as int].1.push(f@))));
            },
            None => {
                let mut t = MyStructType::new(tag);
                t.fields.push(f.clone());
                assert(t@.1 =~= seq![f@]);
                self.struct_types.push(t);
                assert(self@.types =~= old_types.push((tag@, seq![f@])));
            },
        }
        assert(self@ == (VisitorV { types: add_field(old(self)@.types, tag@, f@), ..old(self)@ }));
    }

    /// A struct type node: its tag, if it has one, becomes the current tag.
    pub fn visit_struct_type(&mut self, identifier: Option<String>)
        requires
            old(self).wf(),
        ensures
            final(self).wf(),
            final(self)@ == on_struct_type(old(self)@, opt_view(identifier)),
    {
        if identifier.is_some() {
            self.cur_struct = identifier;
        }
    }

    /// A field declaration, given for each declarator its name where it is a
    /// plain identifier. Under a current tag the names are appended to that
    /// tag's entry; with no current tag nothing changes and the result is
    /// `true`, for the caller to warn.
    pub fn visit_struct_field(&mut self, declarators: &Vec<Option<String>>) -> (warn: bool)
        requires
            old(self).wf(),
        ensures
            final(self).wf(),
            final(self)@ == on_struct_field(old(self)@, declarators@.map_values(|d: Option<String>| opt_view(d))),
            warn == old(self)@.cur is None,
            old(self)@.cur is None ==> final(self)@ == old(self)@,
    {
        let ghost names = declarators@.map_values(|d: Option<String>| opt_view(d));
        let tag = match &self.cur_struct {
            Some(t) => t.clone(),
            None => {
                return true;
            },
        };
        let ghost start = self@;
        let mut i: usize = 0;
        while i < declarators.len()
            invariant
                self.wf(),
                i <= declarators.len(),
                names == declarators@.map_values(|d: Option<String>| opt_view(d)),
                start.cur == Some(tag@),
                self@ == (VisitorV { types: add_fields(start.types, tag@, names.subrange(0, i as int)), ..start }),
            decreases declarators.len() - i,
        {
            assert(names.subrange(0, i + 1).drop_last() =~= names.subrange(0, i as int));
            if let Some(f) = &declarators[i] {
                self.record_field(&tag, f);
            }
            i = i + 1;
        }
        assert(names.subrange(0, i as int) =~= names);
        false
    }
    /// The bindings of the brace list `xs` against the fields of the struct
    /// type at position `ti`.
    fn flatten_against(&self, ti: usize, xs: &Vec<CInitializer>) -> (r: Vec<(String, MyExpression)>)
        requires
            ti < self@.types.len(),
        ensures
            bindings_view(r@) == flatten(*xs, self@.types[ti as int].1),
    {
        let ghost fields = self@.types[ti as int].1;
        let fnames = &self.struct_types[ti].fields;
        assert(fnames@.map_values(|f: String| f@) == fields);
        let mut r: Vec<(String, MyExpression)> = Vec::new();
        assert(bindings_view(r@) =~= seq![]);
        let mut j: usize = 0;
        while j < xs.len() && j < fnames.len()
            invariant
                j <= xs.len(),
                j <= fnames.len(),
                fnames@.map_values(|f: String| f@) == fields,
                bindings_view(r@) == flatten_upto(*xs, fields, j as nat),
            decreases xs.len() - j,
        {
            fill(&mut r, &fnames[j], &xs[j]);
            j = j + 1;
            assert(fields[j - 1] == fnames@[j - 1]@);
        }
        r
    }

    /// A variable declarator, given its name where it is a plain identifier
    /// and its initializer if it has one. On an error nothing changes.
    pub fn visit_init_declarator(&mut self, name: &Option<String>, initializer: &Option<CInitializer>) -> (r: Result<(), ExtractError>)
        requires
            old(self).wf(),
        ensures
            final(self).wf(),
            match on_init_declarator(old(self)@, opt_view(*name), *initializer) {
                Ok(t) => r is Ok && final(self)@ == t,
                Err(e) => r is Err && r->Err_0@ == e && final(self)@ == old(self)@,
            },
    {
        let ghost s = self@;
        let n = match name {
            Some(n) => n,
            None => {
                return Err(ExtractError::UnexpectedDeclarator);
            },
        };
        let ghost key = (s.cur, n@);
        match initializer {
            None => Ok(()),
            Some(CInitializer::Expression(e)) => {
                match self.find_value(&self.cur_struct, n) {
                    Some(_) => Ok(()),
                    None => {
                        let k = (copy_opt(&self.cur_struct), n.clone());
                        let v = MyValue::new_scalar(n, transform(e));
                        self.values.push((k, v));
                        assert(self@.values =~= s.values.push((key, ValueV::Scalar { name: n@, value: simplify(*e) })));
                        assert(values_unique(self@.values)) by {
                            assert forall|a: int, c: int|
                                0 <= a < self@.values.len() && 0 <= c < self@.values.len() && (#[trigger] self@.values[a]).0
                                    == (#[trigger] self@.values[c]).0 implies a == c by {
                                if a < s.values.len() {
                                    assert(s.values[a].0 == self@.values[a].0);
                                }
                                if c < s.values.len() {
                                    assert(s.values[c].0 == self@.values[c].0);
                                }
                            }
                        }
                        Ok(())
                    },
                }
            },
            Some(CInitializer::List(xs)) => {
                let tag = match &self.cur_struct {
                    Some(t) => t.clone(),
                    None => {
                        return Ok(());
                    },
                };
                let found = self.find_value(&self.cur_struct, n);
                if let Some(i) = found {
                    if let MyValue::Scalar { .. } = &self.values[i].1 {
                        return Ok(());
                    }
                }
                let ti = match self.find_type(&tag) {
                    Some(ti) => ti,
                    None => {
                        return Err(ExtractError::UnknownStructType(tag));
                    },
                };
                let mut b = self.flatten_against(ti, xs);
                let ghost bv = bindings_view(b@);
                let ghost target = if has_value(s.values, key) {
                    let k = value_index(s.values, key);
                    s.values.update(k, (key, append_bindings(s.values[k].1, bv)))
                } else {
                    s.values.push((key, ValueV::Struct { typ: tag@, name: n@, values: bv }))
                };
                let i = match found {
                    Some(i) => {
                        assert(s.values[i as int].0 == key);
                        i
                    },
                    None => {
                        let k = (copy_opt(&self.cur_struct), n.clone());
                        let v = MyValue::new_struct(&tag, n);
                        self.values.push((k, v));
                        assert(self@.values =~= s.values.push((key, ValueV::Struct { typ: tag@, name: n@, values: seq![] })));
                        assert(seq![] + bv =~= bv);
                        self.values.len() - 1
                    },
                };
                let ghost mid = self@.values;
                assert(mid[i as int].1 is Struct);
                assert(mid[i as int].0 == key);
                let ghost mid_exec = self.values@;
                append_to(&mut self.values[i].1, &mut b);
                assert(self.values@.len() == mid_exec.len());
                assert(forall|j: int| 0 <= j < mid_exec.len() && j != i ==> self.values@[j] == mid_exec[j]);
                assert(mid == mid_exec.map_values(|e: (ValueKey, MyValue)| entry_view(e)));
                assert forall|j: int| 0 <= j < mid.len() implies #[trigger] self@.values[j] == mid.update(
                    i as int,
                    (key, append_bindings(mid[i as int].1, bv)),
                )[j] by {
                    assert(self@.values[j] == entry_view(self.values@[j]));
                    assert(mid[j] == entry_view(mid_exec[j]));
                }
                assert(self@.values =~= mid.update(i as int, (key, append_bindings(mid[i as int].1, bv))));
                assert(self@.values =~= target);
                assert(self@.types == s.types);
                assert(self@.cur == s.cur);
                assert(values_unique(self@.values)) by {
                    assert forall|a: int, c: int|
                        0 <= a < self@.values.len() && 0 <= c < self@.values.len() && (#[trigger] self@.values[a]).0
                            == (#[trigger] self@.values[c]).0 implies a == c by {
                        if found.is_none() {
                            assert(!has_value(s.values, key));
                            if a < s.values.len() {
                                assert(s.values[a].0 == self@.values[a].0);
                            }
                            if c < s.values.len() {
                                assert(s.values[c].0 == self@.values[c].0);
                            }
                        } else {
                            assert(s.values[a].0 == self@.values[a].0);
                            assert(s.values[c].0 == self@.values[c].0);
                        }
                    }
                }
                Ok(())
            },
        }
    }

    /// Feeds `events` to the visitor in order, stopping at the first error.
    pub fn traverse(&mut self, events: &Vec<TraversalEvent>) -> (r: Result<(), ExtractError>)
        requires
            old(self).wf(),
        ensures
            final(self).wf(),
            match run(old(self)@, events@) {
                Ok(t) => r is Ok && final(self)@ == t,
                Err(e) => r is Err && r->Err_0@ == e,
            },
    {
        let ghost start = self@;
        let mut i: usize = 0;
        assert(events@.subrange(0, 0) =~= seq![]);
        while i < events.len()
            invariant
                self.wf(),
                i <= events.len(),
                start == old(self)@,
                run(start, events@.subrange(0, i as int)) == Ok::<VisitorV, ErrV>(self@),
            decreases events.len() - i,
        {
            assert(events@.subrange(0, i + 1).drop_last() =~= events@.subrange(0, i as int));
            match &events[i] {
                TraversalEvent::StructType(tag) => {
                    self.visit_struct_type(copy_opt(tag));
                },
                TraversalEvent::StructField(ds) => {
                    self.visit_struct_field(ds);
                },
                TraversalEvent::InitDeclarator { name, initializer } => {
                    let ghost before = self@;
                    match self.visit_init_declarator(name, initializer) {
                        Ok(()) => {},
                        Err(e) => {
                            proof {
                                assert(step(before, events@[i as int]) == on_init_declarator(
                                    before,
                                    opt_view(*name),
                                    *initializer,
                                ));
                                assert(run(start, events@.subrange(0, i + 1)) == Err::<VisitorV, ErrV>(e@));
                                lemma_run_stops(start, events@, i + 1);
                            }
                            return Err(e);
                        },
                    }
                },
            }
            i = i + 1;
        }
        assert(events@.subrange(0, i as int) =~= events@);
        Ok(())
    }
}

/// Once the traversal of a prefix of `evs` has stopped, the traversal of
/// all of `evs` stops with the same error.
pub proof fn lemma_run_stops(s: VisitorV, evs: Seq<TraversalEvent>, n: int)
    requires
        0 <= n <= evs.len(),
        run(s, evs.subrange(0, n)) is Err,
    ensures
        run(s, evs) == run(s, evs.subrange(0, n)),
    decreases evs.len() - n,
{
    if n < evs.len() {
        assert(evs.subrange(0, n + 1).drop_last() =~= evs.subrange(0, n));
        lemma_run_stops(s, evs, n + 1);
    } else {
        assert(evs.subrange(0, n) =~= evs);
    }
}

/// Traversing the same events twice, each time from a freshly made visitor,
/// gives the same outcome: equal catalogs, or the same error.
pub proof fn lemma_traversal_deterministic(evs: Seq<TraversalEvent>, a: MyVisitor, b: MyVisitor)
    requires
        a@ == fresh(),
        b@ == fresh(),
    ensures
        run(a@, evs) == run(b@, evs),
{
}

/// A scalar declared twice under the same key keeps the expression of its
/// first declaration.
pub proof fn lemma_scalar_first_write_wins(s: VisitorV, n: Seq<char>, e1: CExpression, e2: CExpression)
    requires
        values_unique(s.values),
        !has_value(s.values, (s.cur, n)),
    ensures
        on_init_declarator(s, Some(n), Some(CInitializer::Expression(e1))) is Ok,
        ({
            let t = on_init_declarator(s, Some(n), Some(CInitializer::Expression(e1)))->Ok_0;
            &&& on_init_declarator(t, Some(n), Some(CInitializer::Expression(e2))) == Ok::<VisitorV, ErrV>(t)
            &&& value_of(t.values, (s.cur, n)) == Some(ValueV::Scalar { name: n, value: simplify(e1) })
        }),
{
    let key = (s.cur, n);
    let t = on_init_declarator(s, Some(n), Some(CInitializer::Expression(e1)))->Ok_0;
    let last = s.values.len() as int;
    assert(t.values[last].0 == key);
    assert(has_value(t.values, key));
    let k = value_index(t.values, key);
    assert(t.values[k].0 == key);
    if k < last {
        assert(s.values[k] == t.values[k]);
    }
}

/// The field names of one struct, seen one after the other under its tag
/// while the type catalog has no entry for that tag yet, make up its entry in
/// that order.
pub proof fn lemma_fields_in_declaration_order(types: Seq<TypeV>, tag: Seq<char>, names: Seq<Seq<char>>)
    requires
        types_unique(types),
        !has_type(types, tag),
        names.len() > 0,
    ensures
        fields_of(add_fields(types, tag, names.map_values(|f: Seq<char>| Some(f))), tag) == Some(names),
    decreases names.len(),
{
    let opts = names.map_values(|f: Seq<char>| Some(f));
    assert(opts.drop_last() =~= names.drop_last().map_values(|f: Seq<char>| Some(f)));
    let f = names.last();
    if names.len() == 1 {
        assert(opts.drop_last() =~= seq![]);
        assert(add_fields(types, tag, opts.drop_last()) == types);
        let t = types.push((tag, seq![f]));
        assert(t[types.len() as int].0 == tag);
        let k = type_index(t, tag);
        assert(t[k].0 == tag);
        if k < types.len() {
            assert(types[k] == t[k]);
        }
        assert(names =~= seq![f]);
    } else {
        lemma_fields_in_declaration_order(types, tag, names.drop_last());
        lemma_add_fields_keeps_unique(types, tag, opts.drop_last());
        let t = add_fields(types, tag, opts.drop_last());
        let k = type_index(t, tag);
        assert(t[k].0 == tag);
        let u = t.update(k, (tag, t[k].1.push(f)));
        assert(u[k].0 == tag);
        let k2 = type_index(u, tag);
        assert(u[k2].0 == tag);
        assert(u[k2].0 == u[k].0);
        assert(t[k2].0 == tag || k2 == k);
        assert(names.drop_last().push(f) =~= names);
    }
}

/// Adding fields keeps the tags of the type catalog distinct.
pub proof fn lemma_add_fields_keeps_unique(types: Seq<TypeV>, tag: Seq<char>, names: Seq<Option<Seq<char>>>)
    requires
        types_unique(types),
    ensures
        types_unique(add_fields(types, tag, names)),
    decreases names.len(),
{
    if names.len() > 0 {
        lemma_add_fields_keeps_unique(types, tag, names.drop_last());
        let t = add_fields(types, tag, names.drop_last());
        match names.last() {
            Some(f) => {
                let u = add_field(t, tag, f);
                if has_type(t, tag) {
                    let k = type_index(t, tag);
                    assert(t[k].0 == tag);
                    assert forall|a: int, c: int|
                        0 <= a < u.len() && 0 <= c < u.len() && (#[trigger] u[a]).0 == (#[trigger] u[c]).0 implies a
                            == c by {
                        assert(u[a].0 == t[a].0);
                        assert(u[c].0 == t[c].0);
                    }
                } else {
                    assert forall|a: int, c: int|
                        0 <= a < u.len() && 0 <= c < u.len() && (#[trigger] u[a]).0 == (#[trigger] u[c]).0 implies a
                            == c by {
                        if a < t.len() {
                            assert(u[a] == t[a]);
                        }
                        if c < t.len() {
                            assert(u[c] == t[c]);
                        }
                    }
                }
            },
            None => {},
        }
    }
}

} // verus!
