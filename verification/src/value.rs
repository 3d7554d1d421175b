use vstd::prelude::*;

use crate::text::{chars_of, str_equal, string_from_chars};

verus! {

broadcast use vstd::seq::group_seq_axioms;

/// A value held on the VM stack or inside a heap object.
///
/// A `Float` is carried by its IEEE-754 bit pattern (`f64::to_bits`).
#[derive(Debug, Clone, Copy, PartialEq, Eq, Structural)]
pub enum VmData {
    /// Pointer to a stack slot.
    StackAddress(usize),
    /// Jump target of a function.
    Function(usize),
    Int(i64),
    Float(u64),
    Bool(bool),
    Char(char),
    /// Index of a heap entry.
    Object(usize),
    /// The absent value (`None` in Nova programs).
    Nil,
}

/// The heap index a value points to, if it is an object reference.
pub open spec fn heap_ref(v: VmData) -> Option<usize> {
    match v {
        VmData::Object(i) => Some(i),
        _ => None,
    }
}

/// The heap index a value points to, if it is an object reference.
pub fn get_heap_index(value: &VmData) -> (res: Option<usize>)
    ensures
        res == heap_ref(*value),
{
    match value {
        VmData::Object(idx) => Some(*idx),
        _ => None,
    }
}

/// The kind of a heap object.
#[derive(Debug, Clone)]
pub enum ObjectType {
    List,
    String,
    Tuple,
    /// A struct with its name.
    Struct(String),
    /// An enum value with its enum name and variant tag.
    Enum { name: String, tag: i64 },
    /// A closure with its function pointer.
    Closure(usize),
}

/// The mathematical view of an [`ObjectType`]: names as character sequences.
pub enum KindView {
    List,
    String,
    Tuple,
    Struct(Seq<char>),
    Enum(Seq<char>, i64),
    Closure(usize),
}

impl View for ObjectType {
    type V = KindView;

    open spec fn view(&self) -> KindView {
        match self {
            ObjectType::List => KindView::List,
            ObjectType::String => KindView::String,
            ObjectType::Tuple => KindView::Tuple,
            ObjectType::Struct(n) => KindView::Struct(n@),
            ObjectType::Enum { name, tag } => KindView::Enum(name@, *tag),
            ObjectType::Closure(p) => KindView::Closure(*p),
        }
    }
}

impl ObjectType {
    /// A copy of this kind.
    pub fn duplicate(&self) -> (res: ObjectType)
        ensures
            res@ == self@,
    {
        match self {
            ObjectType::List => ObjectType::List,
            ObjectType::String => ObjectType::String,
            ObjectType::Tuple => ObjectType::Tuple,
            ObjectType::Struct(n) => ObjectType::Struct(n.clone()),
            ObjectType::Enum { name, tag } => ObjectType::Enum { name: name.clone(), tag: *tag },
            ObjectType::Closure(p) => ObjectType::Closure(*p),
        }
    }

    /// Whether two kinds are equal (same variant, same names, tags and pointers).
    pub fn same_as(&self, other: &ObjectType) -> (res: bool)
        ensures
            res == (self@ == other@),
    {
        match (self, other) {
            (ObjectType::List, ObjectType::List) => true,
            (ObjectType::String, ObjectType::String) => true,
            (ObjectType::Tuple, ObjectType::Tuple) => true,
            (ObjectType::Struct(a), ObjectType::Struct(b)) => str_equal(a.as_str(), b.as_str()),
            (ObjectType::Enum { name: a, tag: t }, ObjectType::Enum { name: b, tag: u }) => {
                *t == *u && str_equal(a.as_str(), b.as_str())
            },
            (ObjectType::Closure(p), ObjectType::Closure(q)) => *p == *q,
            _ => false,
        }
    }
}

/// The position of the first table entry named `key`.
pub open spec fn table_pos(table: Seq<(String, usize)>, key: Seq<char>) -> Option<int>
    decreases table.len(),
{
    if table.len() == 0 {
        None
    } else if table.last().0@ == key {
        match table_pos(table.drop_last(), key) {
            Some(p) => Some(p),
            None => Some(table.len() - 1),
        }
    } else {
        table_pos(table.drop_last(), key)
    }
}

/// No two table entries share a name.
pub open spec fn keys_distinct(table: Seq<(String, usize)>) -> bool {
    forall|i: int, j: int|
        0 <= i < table.len() && 0 <= j < table.len() && i != j ==> #[trigger] table[i].0@
            != #[trigger] table[j].0@
}

/// The data index a table maps `key` to.
pub open spec fn table_lookup(table: Seq<(String, usize)>, key: Seq<char>) -> Option<usize> {
    match table_pos(table, key) {
        Some(p) => Some(table[p].1),
        None => None,
    }
}

pub proof fn lemma_table_pos(table: Seq<(String, usize)>, key: Seq<char>)
    ensures
        match table_pos(table, key) {
            Some(p) => 0 <= p < table.len() && table[p].0@ == key && forall|k: int|
                0 <= k < p ==> table[k].0@ != key,
            None => forall|k: int| 0 <= k < table.len() ==> table[k].0@ != key,
        },
    decreases table.len(),
{
    if table.len() > 0 {
        let rest = table.drop_last();
        lemma_table_pos(rest, key);
        assert forall|k: int| 0 <= k < rest.len() implies #[trigger] table[k] == rest[k] by {}
    }
}

/// A heap object: a list, string, tuple, struct, enum or closure.
///
/// `data` holds the object's elements; for structs `table` maps each field
/// name to an index into `data`.
#[derive(Debug, Clone)]
pub struct Object {
    pub object_type: ObjectType,
    pub table: Vec<(String, usize)>,
    pub data: Vec<VmData>,
}

impl Object {
    /// Table names are distinct.
    pub open spec fn wf(&self) -> bool {
        keys_distinct(self.table@)
    }

    /// The characters held by a string object's data, skipping non-characters.
    pub open spec fn chars_in(data: Seq<VmData>) -> Seq<char>
        decreases data.len(),
    {
        if data.len() == 0 {
            Seq::empty()
        } else {
            let rest = Self::chars_in(data.drop_last());
            match data.last() {
                VmData::Char(c) => rest.push(c),
                _ => rest,
            }
        }
    }

    /// Create a new heap object with the given type and data.
    pub fn new(object_type: ObjectType, data: Vec<VmData>) -> (res: Self)
        ensures
            res.object_type == object_type,
            res.table@.len() == 0,
            res.data == data,
    {
        Object { object_type, table: Vec::new(), data }
    }

    pub fn closure(func_ptr: usize, data: Vec<VmData>) -> (res: Self)
        ensures
            res.object_type == ObjectType::Closure(func_ptr),
            res.table@.len() == 0,
            res.data == data,
    {
        Object { object_type: ObjectType::Closure(func_ptr), table: Vec::new(), data }
    }

    pub fn list(data: Vec<VmData>) -> (res: Self)
        ensures
            res.object_type == ObjectType::List,
            res.table@.len() == 0,
            res.data == data,
    {
        Object { object_type: ObjectType::List, table: Vec::new(), data }
    }

    /// A string object: one `Char` per character of `s`.
    pub fn string(s: String) -> (res: Self)
        ensures
            res.object_type == ObjectType::String,
            res.table@.len() == 0,
            res.data@.len() == s@.len(),
            forall|i: int| 0 <= i < s@.len() ==> #[trigger] res.data@[i] == VmData::Char(s@[i]),
    {
        let cs = chars_of(s.as_str());
        let mut elems: Vec<VmData> = Vec::new();
        let mut i: usize = 0;
        while i < cs.len()
            invariant
                i <= cs.len(),
                cs@ == s@,
                elems@.len() == i,
                forall|k: int| 0 <= k < i ==> elems@[k] == VmData::Char(cs@[k]),
            decreases cs.len() - i,
        {
            let c = cs[i];
            let ghost before = elems@;
            elems.push(VmData::Char(c));
            proof {
                lemma_push(before, VmData::Char(c));
            }
            i += 1;
        }
        Object { object_type: ObjectType::String, table: Vec::new(), data: elems }
    }

    pub fn tuple(data: Vec<VmData>) -> (res: Self)
        ensures
            res.object_type == ObjectType::Tuple,
            res.table@.len() == 0,
            res.data == data,
    {
        Object { object_type: ObjectType::Tuple, table: Vec::new(), data }
    }

    pub fn enum_object(name: String, tag: i64, data: Vec<VmData>) -> (res: Self)
        ensures
            res.object_type == (ObjectType::Enum { name, tag }),
            res.table@.len() == 0,
            res.data == data,
    {
        Object { object_type: ObjectType::Enum { name, tag }, table: Vec::new(), data }
    }

    /// Appends `Object(value)` to the data and maps `key` to its position,
    /// replacing an earlier mapping of `key`.
    pub fn insert(&mut self, key: String, value: usize)
        requires
            old(self).wf(),
            old(self).data.len() < usize::MAX,
        ensures
            final(self).wf(),
            final(self).object_type == old(self).object_type,
            final(self).data@ == old(self).data@.push(VmData::Object(value)),
            table_lookup(final(self).table@, key@) == Some(old(self).data.len()),
            forall|k: Seq<char>|
                k != key@ ==> table_lookup(final(self).table@, k) == table_lookup(
                    old(self).table@,
                    k,
                ),
    {
        self.data.push(VmData::Object(value));
        let pos = self.data.len() - 1;
        table_set(&mut self.table, key, pos);
    }

    /// The position in the table of the entry named `key`.
    pub fn find_field(&self, key: &str) -> (res: Option<usize>)
        ensures
            match res {
                Some(p) => p < self.table@.len() && table_pos(self.table@, key@) == Some(p as int),
                None => table_pos(self.table@, key@) is None,
            },
    {
        table_find(&self.table, key)
    }

    /// The element a struct field names, when its index is within the data.
    pub fn get(&self, key: &str) -> (res: Option<VmData>)
        ensures
            res == (match table_lookup(self.table@, key@) {
                Some(i) => if i < self.data.len() {
                    Some(self.data@[i as int])
                } else {
                    None
                },
                None => None,
            }),
    {
        match self.find_field(key) {
            Some(p) => {
                let index = self.table[p].1;
                if index < self.data.len() {
                    Some(self.data[index])
                } else {
                    None
                }
            },
            None => None,
        }
    }

    pub fn push(&mut self, value: VmData)
        requires
            old(self).data.len() < usize::MAX,
        ensures
            final(self).data@ == old(self).data@.push(value),
            final(self).table == old(self).table,
            final(self).object_type == old(self).object_type,
    {
        self.data.push(value);
    }

    pub fn pop(&mut self) -> (res: Option<VmData>)
        ensures
            old(self).data@.len() == 0 ==> res is None && final(self).data@ == old(self).data@,
            old(self).data@.len() > 0 ==> res == Some(old(self).data@.last())
                && final(self).data@ == old(self).data@.drop_last(),
            final(self).table == old(self).table,
            final(self).object_type == old(self).object_type,
    {
        self.data.pop()
    }

    pub fn len(&self) -> (res: usize)
        ensures
            res == self.data@.len(),
    {
        self.data.len()
    }

    pub fn is_empty(&self) -> (res: bool)
        ensures
            res == (self.data@.len() == 0),
    {
        self.data.len() == 0
    }

    pub fn get_type(&self) -> (res: &ObjectType)
        ensures
            res == &self.object_type,
    {
        &self.object_type
    }

    pub fn get_data(&self) -> (res: &Vec<VmData>)
        ensures
            res == &self.data,
    {
        &self.data
    }

    pub fn get_table(&self) -> (res: &Vec<(String, usize)>)
        ensures
            res == &self.table,
    {
        &self.table
    }

    /// The text of a string object: its `Char` elements in order.
    pub fn as_string(&self) -> (res: Option<String>)
        ensures
            match self.object_type {
                ObjectType::String => res is Some && res->0@ == Self::chars_in(self.data@),
                _ => res is None,
            },
    {
        if let ObjectType::String = self.object_type {
            let mut cs: Vec<char> = Vec::new();
            let mut i: usize = 0;
            while i < self.data.len()
                invariant
                    i <= self.data.len(),
                    cs@ == Self::chars_in(self.data@.subrange(0, i as int)),
                decreases self.data.len() - i,
            {
                proof {
                    assert(self.data@.subrange(0, i + 1).drop_last() =~= self.data@.subrange(
                        0,
                        i as int,
                    ));
                }
                if let VmData::Char(c) = self.data[i] {
                    cs.push(c);
                }
                i += 1;
            }
            assert(self.data@.subrange(0, self.data.len() as int) =~= self.data@);
            return Some(string_from_chars(&cs));
        }
        None
    }

    pub fn as_list(&self) -> (res: Option<Vec<VmData>>)
        ensures
            match self.object_type {
                ObjectType::List => res is Some && res->0@ == self.data@,
                _ => res is None,
            },
    {
        if let ObjectType::List = self.object_type {
            return Some(copy_data(&self.data));
        }
        None
    }

    pub fn as_tuple(&self) -> (res: Option<Vec<VmData>>)
        ensures
            match self.object_type {
                ObjectType::Tuple => res is Some && res->0@ == self.data@,
                _ => res is None,
            },
    {
        if let ObjectType::Tuple = self.object_type {
            return Some(copy_data(&self.data));
        }
        None
    }

    /// A struct's fields: each table entry whose index lies within the data,
    /// paired with the element it names, in table order.
    pub fn as_struct(&self) -> (res: Option<Vec<(String, VmData)>>)
        ensures
            match self.object_type {
                ObjectType::Struct(_) => res is Some && fields_view(res->0@) == struct_fields(
                    self.table@,
                    self.data@,
                ),
                _ => res is None,
            },
    {
        if let ObjectType::Struct(_) = &self.object_type {
            let mut out: Vec<(String, VmData)> = Vec::new();
            let mut i: usize = 0;
            while i < self.table.len()
                invariant
                    i <= self.table.len(),
                    fields_view(out@) == struct_fields(self.table@.subrange(0, i as int), self.data@),
                decreases self.table.len() - i,
            {
                let index = self.table[i].1;
                proof {
                    assert(self.table@.subrange(0, i + 1).drop_last() =~= self.table@.subrange(
                        0,
                        i as int,
                    ));
                }
                if index < self.data.len() {
                    out.push((self.table[i].0.clone(), self.data[index]));
                    assert(fields_view(out@) =~= struct_fields(self.table@.subrange(0, i as int), self.data@).push((self.table@[i as int].0@, self.data@[index as int])));
                }
                i += 1;
            }
            assert(self.table@.subrange(0, self.table.len() as int) =~= self.table@);
            return Some(out);
        }
        None
    }

    pub fn as_enum(&self) -> (res: Option<(String, i64, Vec<VmData>)>)
        ensures
            match self.object_type {
                ObjectType::Enum { name, tag } => match res {
                    Some((n, t, d)) => n@ == name@ && t == tag && d@ == self.data@,
                    None => false,
                },
                _ => res is None,
            },
    {
        if let ObjectType::Enum { name, tag } = &self.object_type {
            return Some((name.clone(), *tag, copy_data(&self.data)));
        }
        None
    }

    pub fn as_closure(&self) -> (res: Option<(usize, Vec<VmData>)>)
        ensures
            match self.object_type {
                ObjectType::Closure(p) => match res {
                    Some((q, d)) => q == p && d@ == self.data@,
                    None => false,
                },
                _ => res is None,
            },
    {
        if let ObjectType::Closure(func_ptr) = self.object_type {
            return Some((func_ptr, copy_data(&self.data)));
        }
        None
    }

    /// A copy of this object: same kind, table and data.
    pub fn duplicate(&self) -> (res: Object)
        ensures
            res.object_type@ == self.object_type@,
            res.table@.len() == self.table@.len(),
            forall|i: int|
                0 <= i < self.table@.len() ==> (#[trigger] res.table@[i]).0@ == self.table@[i].0@
                    && res.table@[i].1 == self.table@[i].1,
            res.data@ == self.data@,
    {
        Object {
            object_type: self.object_type.duplicate(),
            table: copy_table(&self.table),
            data: copy_data(&self.data),
        }
    }
}

/// Maps `key` to `value`, replacing an earlier mapping of `key`.
pub fn table_set(table: &mut Vec<(String, usize)>, key: String, value: usize)
    requires
        keys_distinct(old(table)@),
    ensures
        keys_distinct(final(table)@),
        table_lookup(final(table)@, key@) == Some(value),
        forall|k: Seq<char>|
            k != key@ ==> table_lookup(final(table)@, k) == table_lookup(old(table)@, k),
{
    let ghost t0 = table@;
    proof {
        lemma_table_pos(t0, key@);
    }
    match table_find(table, key.as_str()) {
        Some(p) => {
            let ghost old_entry = table@[p as int];
            table.set(p, (key, value));
            proof {
                let t1 = table@;
                assert forall|i: int, j: int|
                    0 <= i < t1.len() && 0 <= j < t1.len() && i != j implies #[trigger] t1[i].0@
                    != #[trigger] t1[j].0@ by {
                    if i != p && j != p {
                        assert(t1[i] == t0[i] && t1[j] == t0[j]);
                    } else if i == p {
                        assert(t1[j] == t0[j]);
                        assert(t0[p as int].0@ == key@);
                        assert(t0[i].0@ != t0[j].0@);
                    } else {
                        assert(t1[i] == t0[i]);
                        assert(t0[p as int].0@ == key@);
                        assert(t0[i].0@ != t0[j].0@);
                    }
                }
                assert forall|k: Seq<char>| true implies table_pos(t1, k) == table_pos(t0, k)
                    by {
                    lemma_same_names(t0, t1, k);
                }
                assert forall|k: Seq<char>| k != key@ implies table_lookup(t1, k) == table_lookup(t0, k)
                    by {
                    lemma_same_names(t0, t1, k);
                    lemma_table_pos(t0, k);
                }
                lemma_same_names(t0, t1, key@);
            }
        },
        None => {
            table.push((key, value));
            proof {
                let t1 = table@;
                assert(t1.drop_last() =~= t0);
                lemma_push(t0, t1.last());
                assert forall|k: Seq<char>| k != key@ implies table_lookup(t1, k) == table_lookup(t0, k)
                    by { lemma_table_pos(t0, k); }
                assert(table_pos(t1, key@) == Some(t0.len() as int));
            }
        },
    }
}

/// The position in `table` of the entry named `key`.
pub fn table_find(table: &Vec<(String, usize)>, key: &str) -> (res: Option<usize>)
    ensures
        match res {
            Some(p) => p < table@.len() && table_pos(table@, key@) == Some(p as int),
            None => table_pos(table@, key@) is None,
        },
{
    let mut i: usize = 0;
    while i < table.len()
        invariant
            i <= table.len(),
            forall|k: int| 0 <= k < i ==> table@[k].0@ != key@,
        decreases table.len() - i,
    {
        if str_equal(table[i].0.as_str(), key) {
            proof {
                lemma_first_pos(table@, key@, i as int);
            }
            return Some(i);
        }
        i += 1;
    }
    proof {
        lemma_table_pos(table@, key@);
    }
    None
}

/// The (name, element) pairs of a struct view.
pub open spec fn fields_view(f: Seq<(String, VmData)>) -> Seq<(Seq<char>, VmData)> {
    f.map_values(|e: (String, VmData)| (e.0@, e.1))
}

/// The fields a struct exposes: table entries whose index lies within the
/// data, each with the element it names, in table order.
pub open spec fn struct_fields(table: Seq<(String, usize)>, data: Seq<VmData>) -> Seq<
    (Seq<char>, VmData),
>
    decreases table.len(),
{
    if table.len() == 0 {
        Seq::empty()
    } else {
        let rest = struct_fields(table.drop_last(), data);
        let e = table.last();
        if e.1 < data.len() {
            rest.push((e.0@, data[e.1 as int]))
        } else {
            rest
        }
    }
}

/// An element-wise copy of a data vector.
pub fn copy_data(v: &Vec<VmData>) -> (res: Vec<VmData>)
    ensures
        res@ == v@,
{
    let mut out: Vec<VmData> = Vec::new();
    let mut i: usize = 0;
    while i < v.len()
        invariant
            i <= v.len(),
            out@ == v@.subrange(0, i as int),
        decreases v.len() - i,
    {
        out.push(v[i]);
        i += 1;
        assert(out@ =~= v@.subrange(0, i as int));
    }
    assert(v@.subrange(0, v.len() as int) =~= v@);
    out
}

/// The elements of `a` followed by those of `b`.
pub fn concat_data(a: &Vec<VmData>, b: &Vec<VmData>) -> (res: Vec<VmData>)
    ensures
        res@ == a@ + b@,
{
    let mut out = copy_data(a);
    let mut i: usize = 0;
    while i < b.len()
        invariant
            i <= b.len(),
            out@ == a@ + b@.subrange(0, i as int),
        decreases b.len() - i,
    {
        out.push(b[i]);
        i += 1;
        assert(out@ =~= a@ + b@.subrange(0, i as int));
    }
    assert(b@.subrange(0, b.len() as int) =~= b@);
    out
}

/// `data` holds exactly the characters `cs`, one `Char` each.
pub open spec fn holds_chars(data: Seq<VmData>, cs: Seq<char>) -> bool {
    &&& data.len() == cs.len()
    &&& forall|i: int| 0 <= i < cs.len() ==> #[trigger] data[i] == VmData::Char(cs[i])
}

/// An entry-wise copy of a field table.
pub fn copy_table(t: &Vec<(String, usize)>) -> (res: Vec<(String, usize)>)
    ensures
        res@.len() == t@.len(),
        forall|i: int|
            0 <= i < t@.len() ==> (#[trigger] res@[i]).0@ == t@[i].0@ && res@[i].1 == t@[i].1,
{
    let mut out: Vec<(String, usize)> = Vec::new();
    let mut i: usize = 0;
    while i < t.len()
        invariant
            i <= t.len(),
            out@.len() == i,
            forall|k: int| 0 <= k < i ==> (#[trigger] out@[k]).0@ == t@[k].0@ && out@[k].1 == t@[k].1,
        decreases t.len() - i,
    {
        out.push((t[i].0.clone(), t[i].1));
        i += 1;
    }
    out
}

/// Length and elements of a sequence after a push.
pub proof fn lemma_push<A>(s: Seq<A>, a: A)
    ensures
        s.push(a).len() == s.len() + 1,
        s.push(a)[s.len() as int] == a,
        forall|i: int| 0 <= i < s.len() ==> #[trigger] s.push(a)[i] == s[i],
{
    vstd::seq::axiom_seq_push_len(s, a);
    vstd::seq::axiom_seq_push_index_same(s, a, s.len() as int);
    assert forall|i: int| 0 <= i < s.len() implies #[trigger] s.push(a)[i] == s[i] by {
        vstd::seq::axiom_seq_push_index_different(s, a, i);
    }
}

pub proof fn lemma_same_names(t0: Seq<(String, usize)>, t1: Seq<(String, usize)>, key: Seq<char>)
    requires
        t0.len() == t1.len(),
        forall|i: int| 0 <= i < t0.len() ==> #[trigger] t0[i].0@ == t1[i].0@,
    ensures
        table_pos(t0, key) == table_pos(t1, key),
    decreases t0.len(),
{
    if t0.len() > 0 {
        lemma_same_names(t0.drop_last(), t1.drop_last(), key);
    }
}

pub proof fn lemma_first_pos(table: Seq<(String, usize)>, key: Seq<char>, i: int)
    requires
        0 <= i < table.len(),
        table[i].0@ == key,
        forall|k: int| 0 <= k < i ==> table[k].0@ != key,
    ensures
        table_pos(table, key) == Some(i),
{
    lemma_table_pos(table, key);
}

} // verus!
