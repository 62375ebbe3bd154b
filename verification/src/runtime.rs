//! The run-time object model: values, handles, activation frames, and
//! the garbage-collected heap.
//!
//! The heap is the single owning table of live instances: an append-only
//! slot array where each slot is either a live instance or a permanent
//! hole. Frames and values hold only non-owning handles; indices are
//! never reused.

use vstd::prelude::*;

use crate::bytecode::{ByteCode, spec_decode};
use crate::error::{ResolutionError, UnsupportedFeature, VmError};
use crate::text::{char_string, fmt_i64, fmt_u64, int_str};

verus! {

/// A discriminated non-owning handle; only `Object` is currently
/// materialized, as an index into the heap's slot array.
#[derive(Debug, Clone, Copy, PartialEq, Eq, Structural)]
pub enum Reference {
    Class(usize),
    Array(usize),
    /// Instance of a class; the payload is the index of the instance in
    /// the heap.
    Object(usize),
}

/// A run-time value. Value kinds copy by value; text and handles copy
/// the text or the handle, never heap contents.
#[derive(Debug)]
pub enum Value {
    Boolean(bool),
    Byte(i8),
    Char(char),
    Short(i16),
    Int(i32),
    String(String),
    Reference(Reference),
    ReturnAddress(usize),
}

/// The mathematical shadow of a run-time value.
pub enum ValueV {
    Boolean(bool),
    Byte(i8),
    Char(char),
    Short(i16),
    Int(i32),
    String(Seq<char>),
    Reference(Reference),
    ReturnAddress(usize),
}

impl View for Value {
    type V = ValueV;

    open spec fn view(&self) -> ValueV {
        match self {
            Value::Boolean(b) => ValueV::Boolean(*b),
            Value::Byte(x) => ValueV::Byte(*x),
            Value::Char(c) => ValueV::Char(*c),
            Value::Short(x) => ValueV::Short(*x),
            Value::Int(x) => ValueV::Int(*x),
            Value::String(s) => ValueV::String(s@),
            Value::Reference(r) => ValueV::Reference(*r),
            Value::ReturnAddress(a) => ValueV::ReturnAddress(*a),
        }
    }
}

impl DeepView for Value {
    type V = ValueV;

    open spec fn deep_view(&self) -> ValueV {
        self.view()
    }
}

/// The display form of a boolean: the literal words.
pub open spec fn bool_str(b: bool) -> Seq<char> {
    if b {
        "true"@
    } else {
        "false"@
    }
}

/// The display form of a handle: its kind and its index.
pub open spec fn ref_str(r: Reference) -> Seq<char> {
    match r {
        Reference::Class(i) => "Class("@ + int_str(i as int) + ")"@,
        Reference::Array(i) => "Array("@ + int_str(i as int) + ")"@,
        Reference::Object(i) => "Object("@ + int_str(i as int) + ")"@,
    }
}

/// The display form of a value: booleans as literal words, numerics
/// decimal, text verbatim, handles by kind and index.
pub open spec fn display_str(v: ValueV) -> Seq<char> {
    match v {
        ValueV::Boolean(b) => bool_str(b),
        ValueV::Byte(x) => int_str(x as int),
        ValueV::Char(c) => seq![c],
        ValueV::Short(x) => int_str(x as int),
        ValueV::Int(x) => int_str(x as int),
        ValueV::String(s) => s,
        ValueV::Reference(r) => ref_str(r),
        ValueV::ReturnAddress(a) => int_str(a as int),
    }
}

impl Value {
    /// The handle held by this value, when it holds one.
    pub fn as_reference(&self) -> (r: Option<Reference>)
        ensures
            match r {
                Some(rf) => self@ == ValueV::Reference(rf),
                None => !(self@ is Reference),
            },
    {
        match self {
            Value::Reference(reference) => Some(*reference),
            _ => None,
        }
    }

    /// An owned copy of this value; text and handles copy shallowly.
    pub fn duplicate(&self) -> (r: Value)
        ensures
            r@ == self@,
    {
        match self {
            Value::Boolean(b) => Value::Boolean(*b),
            Value::Byte(x) => Value::Byte(*x),
            Value::Char(c) => Value::Char(*c),
            Value::Short(x) => Value::Short(*x),
            Value::Int(x) => Value::Int(*x),
            Value::String(s) => Value::String(s.clone()),
            Value::Reference(r) => Value::Reference(*r),
            Value::ReturnAddress(a) => Value::ReturnAddress(*a),
        }
    }

    /// Render this value in its display form.
    pub fn render(&self) -> (r: String)
        ensures
            r@ == display_str(self@),
    {
        match self {
            Value::Boolean(b) => {
                if *b {
                    "true".to_owned()
                } else {
                    "false".to_owned()
                }
            },
            Value::Byte(x) => fmt_i64(*x as i64),
            Value::Char(c) => char_string(*c),
            Value::Short(x) => fmt_i64(*x as i64),
            Value::Int(x) => fmt_i64(*x as i64),
            Value::String(s) => s.clone(),
            Value::Reference(r) => {
                let prefix: &str = match r {
                    Reference::Class(_) => "Class(",
                    Reference::Array(_) => "Array(",
                    Reference::Object(_) => "Object(",
                };
                let i: usize = match r {
                    Reference::Class(i) => *i,
                    Reference::Array(i) => *i,
                    Reference::Object(i) => *i,
                };
                let mut out = prefix.to_owned();
                out.append(fmt_u64(i as u64).as_str());
                out.append(")");
                proof {
                    assert(out@ =~= ref_str(*r));
                }
                out
            },
            Value::ReturnAddress(a) => fmt_u64(*a as u64),
        }
    }
}

// ---------------------------------------------------------------------
// Instances
// ---------------------------------------------------------------------

/// A heap-allocated object: a class identity, its own slot index, and a
/// field table keyed by name, grown on first write.
pub struct Instantce {
    pub class: usize,
    pub index: usize,
    pub fields: Vec<(String, Value)>,
}

/// The mathematical shadow of an instance.
#[verifier::ext_equal]
pub struct InstantceV {
    pub class: usize,
    pub index: usize,
    pub fields: Seq<(Seq<char>, ValueV)>,
}

impl View for Instantce {
    type V = InstantceV;

    open spec fn view(&self) -> InstantceV {
        InstantceV {
            class: self.class,
            index: self.index,
            fields: Seq::new(self.fields@.len(), |i: int| (self.fields@[i].0@, self.fields@[i].1@)),
        }
    }
}

impl DeepView for Instantce {
    type V = InstantceV;

    open spec fn deep_view(&self) -> InstantceV {
        self.view()
    }
}

/// The field table as a map, later rows overriding earlier ones.
pub open spec fn fields_map(fields: Seq<(Seq<char>, ValueV)>) -> Map<Seq<char>, ValueV>
    decreases fields.len(),
{
    if fields.len() == 0 {
        Map::empty()
    } else {
        fields_map(fields.drop_last()).insert(fields.last().0, fields.last().1)
    }
}

/// Row keys are unique, so the table and its map agree row by row.
pub open spec fn fields_wf(fields: Seq<(Seq<char>, ValueV)>) -> bool {
    forall|j: int, k: int| 0 <= j < k < fields.len() ==> fields[j].0 != fields[k].0
}

impl InstantceV {
    /// Well-formed: the field table has unique keys.
    pub open spec fn wf(self) -> bool {
        fields_wf(self.fields)
    }

    /// The field table of this instance, as a map.
    pub open spec fn field_map(self) -> Map<Seq<char>, ValueV> {
        fields_map(self.fields)
    }
}

proof fn lemma_fields_map_row(fields: Seq<(Seq<char>, ValueV)>, j: int)
    requires
        fields_wf(fields),
        0 <= j < fields.len(),
    ensures
        fields_map(fields).contains_key(fields[j].0),
        fields_map(fields)[fields[j].0] == fields[j].1,
    decreases fields.len(),
{
    if j == fields.len() - 1 {
    } else {
        lemma_fields_map_row(fields.drop_last(), j);
    }
}

proof fn lemma_fields_map_absent(fields: Seq<(Seq<char>, ValueV)>, name: Seq<char>)
    requires
        forall|j: int| 0 <= j < fields.len() ==> fields[j].0 != name,
    ensures
        !fields_map(fields).contains_key(name),
    decreases fields.len(),
{
    if fields.len() > 0 {
        lemma_fields_map_absent(fields.drop_last(), name);
    }
}

proof fn lemma_fields_map_update(fields: Seq<(Seq<char>, ValueV)>, j: int, v: ValueV)
    requires
        fields_wf(fields),
        0 <= j < fields.len(),
    ensures
        fields_map(fields.update(j, (fields[j].0, v))) == fields_map(fields).insert(
            fields[j].0,
            v,
        ),
    decreases fields.len(),
{
    let updated = fields.update(j, (fields[j].0, v));
    if j == fields.len() - 1 {
        assert(updated.drop_last() =~= fields.drop_last());
        assert(fields_map(updated) =~= fields_map(fields).insert(fields[j].0, v));
    } else {
        assert(updated.drop_last() =~= fields.drop_last().update(j, (fields[j].0, v)));
        lemma_fields_map_update(fields.drop_last(), j, v);
        assert(updated.last() == fields.last());
        assert(fields[j].0 != fields.last().0);
        assert(fields_map(updated) =~= fields_map(fields).insert(fields[j].0, v));
    }
}

impl Instantce {
    /// A fresh instance with an empty field table.
    pub fn new(class: usize, index: usize) -> (r: Instantce)
        ensures
            r@ == (InstantceV { class, index, fields: Seq::empty() }),
            r@.wf(),
    {
        let r = Instantce { class, index, fields: Vec::new() };
        proof {
            assert(r@.fields =~= Seq::<(Seq<char>, ValueV)>::empty());
            assert(r@ =~= (InstantceV { class, index, fields: Seq::empty() }));
        }
        r
    }

    /// The row holding `name`, scanning from the front.
    fn find_field(&self, name: &str) -> (r: Option<usize>)
        ensures
            match r {
                Some(j) => j < self@.fields.len() && self@.fields[j as int].0 == name@,
                None => forall|j: int| 0 <= j < self@.fields.len() ==> self@.fields[j].0 != name@,
            },
    {
        let want: String = name.to_owned();
        let mut j: usize = 0;
        while j < self.fields.len()
            invariant
                j <= self.fields@.len(),
                want@ == name@,
                forall|k: int| 0 <= k < j ==> self@.fields[k].0 != name@,
            decreases self.fields@.len() - j,
        {
            if self.fields[j].0 == want {
                return Some(j);
            }
            j = j + 1;
        }
        None
    }

    /// Read a named field; there is no default for object fields, so a
    /// field never written is absent.
    pub fn get_field(&self, name: &str) -> (r: Option<Value>)
        requires
            self@.wf(),
        ensures
            match r {
                Some(v) => self@.field_map().contains_key(name@) && v@ == self@.field_map()[name@],
                None => !self@.field_map().contains_key(name@),
            },
    {
        match self.find_field(name) {
            Some(j) => {
                proof {
                    lemma_fields_map_row(self@.fields, j as int);
                }
                Some(self.fields[j].1.duplicate())
            },
            None => {
                proof {
                    lemma_fields_map_absent(self@.fields, name@);
                }
                None
            },
        }
    }

    /// Write a named field, growing the table on first write.
    pub fn put_field(&mut self, name: &str, value: Value)
        requires
            old(self)@.wf(),
        ensures
            final(self)@.wf(),
            final(self)@.class == old(self)@.class,
            final(self)@.index == old(self)@.index,
            final(self)@.field_map() == old(self)@.field_map().insert(name@, value@),
    {
        let want: String = name.to_owned();
        match self.find_field(name) {
            Some(j) => {
                proof {
                    lemma_fields_map_update(self@.fields, j as int, value@);
                }
                let ghost pre = self@.fields;
                self.fields[j] = (want, value);
                proof {
                    assert(self@.fields =~= pre.update(j as int, (pre[j as int].0, value@)));
                    assert(forall|k: int| 0 <= k < pre.len() ==> self@.fields[k].0 == pre[k].0);
                    assert forall|a: int, b: int|
                        0 <= a < b < self@.fields.len() implies self@.fields[a].0
                        != self@.fields[b].0 by {
                        assert(self@.fields[a].0 == pre[a].0);
                        assert(self@.fields[b].0 == pre[b].0);
                    }
                    assert(fields_wf(self@.fields));
                }
            },
            None => {
                proof {
                    lemma_fields_map_absent(self@.fields, name@);
                }
                let ghost pre = self@.fields;
                self.fields.push((want, value));
                proof {
                    assert(self@.fields.drop_last() =~= pre);
                    assert(self@.fields.last() == (name@, value@));
                    assert(forall|k: int| 0 <= k < pre.len() ==> self@.fields[k] == pre[k]);
                    assert forall|a: int, b: int|
                        0 <= a < b < self@.fields.len() implies self@.fields[a].0
                        != self@.fields[b].0 by {
                        if b == pre.len() {
                            assert(pre[a].0 != name@);
                        } else {
                            assert(self@.fields[a].0 == pre[a].0);
                            assert(self@.fields[b].0 == pre[b].0);
                        }
                    }
                    assert(fields_wf(self@.fields));
                    assert(final(self)@.field_map() =~= old(self)@.field_map().insert(
                        name@,
                        value@,
                    ));
                }
            },
        }
    }
}

// ---------------------------------------------------------------------
// Frames
// ---------------------------------------------------------------------

/// One activation record: program counter, method name, an owned copy
/// of the method's code bytes, the operand stack and the locals array.
pub struct Frame {
    pub pc: usize,
    pub name: String,
    pub codes: Vec<u8>,
    pub operand_stack: Vec<Value>,
    pub locals: Vec<Value>,
}

/// The mathematical shadow of a frame.
#[verifier::ext_equal]
pub struct FrameV {
    pub pc: usize,
    pub name: Seq<char>,
    pub codes: Seq<u8>,
    pub operand_stack: Seq<ValueV>,
    pub locals: Seq<ValueV>,
}

impl View for Frame {
    type V = FrameV;

    open spec fn view(&self) -> FrameV {
        FrameV {
            pc: self.pc,
            name: self.name@,
            codes: self.codes@,
            operand_stack: self.operand_stack.deep_view(),
            locals: self.locals.deep_view(),
        }
    }
}

impl DeepView for Frame {
    type V = FrameV;

    open spec fn deep_view(&self) -> FrameV {
        self.view()
    }
}

impl Frame {
    /// A fresh activation record sized to its method: the operand stack
    /// and the locals array both default every slot to integer zero.
    pub fn new(name: &str, codes: &[u8], max_locals: u16, max_stack: u16) -> (r: Frame)
        ensures
            r@.pc == 0,
            r@.name == name@,
            r@.codes == codes@,
            r@.operand_stack == Seq::new(max_stack as nat, |i: int| ValueV::Int(0)),
            r@.locals == Seq::new(max_locals as nat, |i: int| ValueV::Int(0)),
    {
        let operand_stack = zero_values(max_stack);
        let locals = zero_values(max_locals);
        Frame {
            pc: 0,
            name: name.to_owned(),
            codes: vstd::slice::slice_to_vec(codes),
            operand_stack,
            locals,
        }
    }

    /// Decode the instruction at the current program counter and advance
    /// past it; everything else in the frame is untouched.
    pub fn fetch(&mut self) -> (r: Result<ByteCode, VmError>)
        ensures
            final(self)@.name == old(self)@.name,
            final(self)@.codes == old(self)@.codes,
            final(self)@.operand_stack == old(self)@.operand_stack,
            final(self)@.locals == old(self)@.locals,
            match r {
                Ok(bc) => spec_decode(old(self)@.codes, old(self)@.pc as int) == Ok::<
                    (int, ByteCode),
                    VmError,
                >((final(self)@.pc as int, bc)),
                Err(e) => spec_decode(old(self)@.codes, old(self)@.pc as int) == Err::<
                    (int, ByteCode),
                    VmError,
                >(e) && final(self)@.pc == old(self)@.pc,
            },
    {
        match ByteCode::parse(self.pc, self.codes.as_slice()) {
            Ok((pc, bc)) => {
                self.pc = pc;
                Ok(bc)
            },
            Err(e) => Err(e),
        }
    }
}

/// A vector of `n` integer-zero values, the default slot content.
fn zero_values(n: u16) -> (r: Vec<Value>)
    ensures
        r.deep_view() == Seq::new(n as nat, |i: int| ValueV::Int(0)),
{
    let mut r: Vec<Value> = Vec::new();
    let mut k: u16 = 0;
    while k < n
        invariant
            k <= n,
            r@.len() == k as int,
            forall|i: int| 0 <= i < k as int ==> r@[i] == Value::Int(0),
        decreases n - k,
    {
        r.push(Value::Int(0));
        k = k + 1;
    }
    proof {
        assert forall|i: int| 0 <= i < n as int implies r.deep_view()[i] == ValueV::Int(0) by {
            assert(r@[i] == Value::Int(0));
        }
        assert(r.deep_view() =~= Seq::new(n as nat, |i: int| ValueV::Int(0)));
    }
    r
}

// ---------------------------------------------------------------------
// The heap and its reclamation pass
// ---------------------------------------------------------------------

/// Whether some field of `inst` holds a handle to heap slot `target`.
pub open spec fn inst_refs(inst: InstantceV, target: usize) -> bool {
    exists|j: int|
        0 <= j < inst.fields.len() && inst.fields[j].1 == ValueV::Reference(
            Reference::Object(target),
        )
}

/// One step of the field graph: slot `a` is live and a field of it
/// holds a handle to slot `b`.
pub open spec fn heap_edge(h: Seq<Option<InstantceV>>, a: usize, b: usize) -> bool {
    (a as int) < h.len() && h[a as int] is Some && inst_refs(h[a as int]->Some_0, b)
}

/// Whether one of the values holds a handle to heap slot `i`.
pub open spec fn value_root(vs: Seq<ValueV>, i: usize) -> bool {
    exists|k: int| 0 <= k < vs.len() && vs[k] == ValueV::Reference(Reference::Object(i))
}

/// Whether a value in the frame's operand stack or locals holds a
/// handle to heap slot `i`.
pub open spec fn frame_has_root(f: FrameV, i: usize) -> bool {
    value_root(f.operand_stack, i) || value_root(f.locals, i)
}

/// The roots of a reclamation pass: every handle held in any remaining
/// frame's operand stack or locals, across the whole call stack.
pub open spec fn stack_roots(frames: Seq<FrameV>) -> Set<usize> {
    Set::new(|i: usize| exists|f: int| 0 <= f < frames.len() && frame_has_root(frames[f], i))
}

/// A chain of field-graph steps out of the root set.
pub open spec fn is_path(h: Seq<Option<InstantceV>>, roots: Set<usize>, p: Seq<usize>) -> bool {
    p.len() >= 1 && roots.contains(p[0]) && (forall|k: int|
        0 <= k < p.len() - 1 ==> #[trigger] heap_edge(h, p[k], p[k + 1]))
}

/// Slot `t` is a root or is referenced, directly or through a chain of
/// fields of reachable instances, from a root.
pub open spec fn reaches(h: Seq<Option<InstantceV>>, roots: Set<usize>, t: usize) -> bool {
    exists|p: Seq<usize>| is_path(h, roots, p) && p.last() == t
}

/// Whether a reclamation pass over heap `h` with the given roots keeps
/// slot `i`: it is live and reachable.
pub open spec fn gc_keep(h: Seq<Option<InstantceV>>, roots: Set<usize>, i: int) -> bool {
    h[i] is Some && reaches(h, roots, i as usize)
}

/// The slots a reclamation pass removes among the first `n`, in
/// increasing order.
pub open spec fn reclaimed_upto(h: Seq<Option<InstantceV>>, roots: Set<usize>, n: int) -> Seq<usize>
    decreases n,
{
    if n <= 0 {
        Seq::empty()
    } else {
        let rest = reclaimed_upto(h, roots, n - 1);
        if h[n - 1] is Some && !reaches(h, roots, (n - 1) as usize) {
            rest.push((n - 1) as usize)
        } else {
            rest
        }
    }
}

/// Indices joined with a comma and a space.
pub open spec fn join_indices(s: Seq<usize>) -> Seq<char>
    decreases s.len(),
{
    if s.len() == 0 {
        Seq::empty()
    } else if s.len() == 1 {
        int_str(s[0] as int)
    } else {
        join_indices(s.drop_last()) + ", "@ + int_str(s.last() as int)
    }
}

/// The diagnostic line of a reclamation pass that removed something,
/// naming the removed slots and the method just exited.
pub open spec fn gc_log_line(
    h: Seq<Option<InstantceV>>,
    roots: Set<usize>,
    func: Seq<char>,
) -> Seq<char> {
    "GC: Remove Objects: ["@ + join_indices(reclaimed_upto(h, roots, h.len() as int)) + "] after "@
        + func
}

/// Every slot is either a hole or a well-formed instance recording its
/// own index.
pub open spec fn heap_wf(h: Seq<Option<InstantceV>>) -> bool {
    forall|i: int|
        0 <= i < h.len() && h[i] is Some ==> (#[trigger] h[i])->Some_0.wf() && h[i]->Some_0.index
            == i
}

/// Every slot still marked keeps a path to it; a path whose end is live
/// ends marked.
proof fn lemma_path_marked(
    h: Seq<Option<InstantceV>>,
    roots: Set<usize>,
    marked: Seq<bool>,
    p: Seq<usize>,
)
    requires
        marked.len() == h.len(),
        is_path(h, roots, p),
        (p.last() as int) < h.len(),
        h[p.last() as int] is Some,
        forall|i: usize|
            roots.contains(i) && (i as int) < h.len() && h[i as int] is Some ==> marked[i as int],
        forall|a: usize, b: usize|
            (a as int) < h.len() && marked[a as int] && #[trigger] heap_edge(h, a, b) && (
            b as int) < h.len() && h[b as int] is Some ==> marked[b as int],
    ensures
        marked[p.last() as int],
    decreases p.len(),
{
    if p.len() == 1 {
        assert(roots.contains(p[0]));
    } else {
        let q = p.drop_last();
        let k = p.len() - 2;
        assert(heap_edge(h, p[k], p[k + 1]));
        assert(q.last() == p[k]);
        assert(is_path(h, roots, q));
        lemma_path_marked(h, roots, marked, q);
    }
}

/// After a reclamation pass over `before` with the surviving `frames`,
/// every slot reachable from a surviving frame's stack or locals,
/// directly or via field chains, still resolves to the same live
/// instance, and every live slot absent from all reachable chains is
/// gone from the heap.
pub proof fn lemma_reclamation_keeps_exactly_the_reachable(
    before: Seq<Option<InstantceV>>,
    frames: Seq<FrameV>,
    after: Seq<Option<InstantceV>>,
    i: int,
)
    requires
        after.len() == before.len(),
        forall|j: int|
            0 <= j < before.len() ==> after[j] == (if gc_keep(before, stack_roots(frames), j) {
                before[j]
            } else {
                None::<InstantceV>
            }),
        0 <= i < before.len(),
    ensures
        before[i] is Some && reaches(before, stack_roots(frames), i as usize) ==> after[i]
            == before[i] && after[i] is Some,
        !(before[i] is Some && reaches(before, stack_roots(frames), i as usize)) ==> after[i] is None,
{
}

/// The single process-wide table of live instances: an append-only slot
/// array where each slot is a live instance or a permanent hole. It
/// exclusively owns all instances; frames and values hold only handles.
pub struct Heap {
    pub instances: Vec<Option<Instantce>>,
}

impl View for Heap {
    type V = Seq<Option<InstantceV>>;

    open spec fn view(&self) -> Seq<Option<InstantceV>> {
        self.instances.deep_view()
    }
}

impl Heap {
    /// An empty heap.
    pub fn new() -> (r: Heap)
        ensures
            r@ == Seq::<Option<InstantceV>>::empty(),
            heap_wf(r@),
    {
        let r = Heap { instances: Vec::new() };
        proof {
            assert(r@ =~= Seq::<Option<InstantceV>>::empty());
        }
        r
    }

    /// Append a new instance with an empty field table and hand back an
    /// object handle over its slot index. Indices are never reused.
    pub fn malloc_instance(&mut self, class: usize) -> (r: Reference)
        requires
            heap_wf(old(self)@),
        ensures
            heap_wf(final(self)@),
            r == Reference::Object(old(self)@.len() as usize),
            final(self)@ == old(self)@.push(
                Some(
                    InstantceV {
                        class,
                        index: old(self)@.len() as usize,
                        fields: Seq::empty(),
                    },
                ),
            ),
    {
        let index = self.instances.len();
        let instance = Instantce::new(class, index);
        let ghost pre = self@;
        self.instances.push(Some(instance));
        proof {
            assert(self@ =~= pre.push(
                Some(InstantceV { class, index: pre.len() as usize, fields: Seq::empty() }),
            ));
        }
        Reference::Object(index)
    }

    /// Dereference a handle. Only object handles are materialized, and
    /// only a slot still holding a live instance resolves.
    pub fn get(&self, reference: &Reference) -> (r: Result<&Instantce, VmError>)
        requires
            heap_wf(self@),
        ensures
            match r {
                Ok(inst) => *reference == Reference::Object(inst.index) && (inst.index as int)
                    < self@.len() && self@[inst.index as int] == Some(inst@) && inst@.wf(),
                Err(e) => match *reference {
                    Reference::Object(i) => ((i as int) >= self@.len() || self@[i as int] is None)
                        && e == VmError::Resolution(ResolutionError::DanglingReference),
                    _ => e == VmError::Unsupported(UnsupportedFeature::ReferenceKind),
                },
            },
    {
        match reference {
            Reference::Object(index) => {
                if *index < self.instances.len() {
                    match &self.instances[*index] {
                        Some(inst) => Ok(inst),
                        None => Err(VmError::Resolution(ResolutionError::DanglingReference)),
                    }
                } else {
                    Err(VmError::Resolution(ResolutionError::DanglingReference))
                }
            },
            _ => Err(VmError::Unsupported(UnsupportedFeature::ReferenceKind)),
        }
    }

    /// Write one field of the instance behind a handle.
    pub fn put_field(&mut self, reference: &Reference, name: &str, value: Value) -> (r: Result<
        (),
        VmError,
    >)
        requires
            heap_wf(old(self)@),
        ensures
            heap_wf(final(self)@),
            match r {
                Ok(()) => {
                    &&& *reference is Object
                    &&& {
                        let i = reference->Object_0 as int;
                        &&& 0 <= i < old(self)@.len()
                        &&& old(self)@[i] is Some
                        &&& final(self)@ == old(self)@.update(
                            i,
                            Some(
                                InstantceV {
                                    class: old(self)@[i]->Some_0.class,
                                    index: old(self)@[i]->Some_0.index,
                                    fields: final(self)@[i]->Some_0.fields,
                                },
                            ),
                        )
                        &&& final(self)@[i]->Some_0.field_map() == old(
                            self,
                        )@[i]->Some_0.field_map().insert(name@, value@)
                    }
                },
                Err(e) => {
                    &&& final(self)@ == old(self)@
                    &&& match *reference {
                        Reference::Object(i) => ((i as int) >= old(self)@.len()
                            || old(self)@[i as int] is None) && e == VmError::Resolution(
                            ResolutionError::DanglingReference,
                        ),
                        _ => e == VmError::Unsupported(UnsupportedFeature::ReferenceKind),
                    }
                },
            },
    {
        match reference {
            Reference::Object(index) => {
                let index = *index;
                if index < self.instances.len() {
                    let ghost pre = self@;
                    let slot = self.instances.remove(index);
                    match slot {
                        Some(mut inst) => {
                            inst.put_field(name, value);
                            self.instances.insert(index, Some(inst));
                            proof {
                                assert(self@ =~= pre.update(
                                    index as int,
                                    Some(
                                        InstantceV {
                                            class: pre[index as int]->Some_0.class,
                                            index: pre[index as int]->Some_0.index,
                                            fields: self@[index as int]->Some_0.fields,
                                        },
                                    ),
                                ));
                                assert forall|i: int|
                                    0 <= i < self@.len() && self@[i] is Some implies (
                                #[trigger] self@[i])->Some_0.wf() && self@[i]->Some_0.index
                                    == i by {
                                    if i != index as int {
                                        assert(self@[i] == pre[i]);
                                    }
                                }
                            }
                            Ok(())
                        },
                        None => {
                            self.instances.insert(index, None);
                            proof {
                                assert(self@ =~= pre);
                            }
                            Err(VmError::Resolution(ResolutionError::DanglingReference))
                        },
                    }
                } else {
                    Err(VmError::Resolution(ResolutionError::DanglingReference))
                }
            },
            _ => Err(VmError::Unsupported(UnsupportedFeature::ReferenceKind)),
        }
    }
}

/// How many entries of the mark table are set.
spec fn count_true(s: Seq<bool>) -> int
    decreases s.len(),
{
    if s.len() <= 0 {
        0
    } else {
        count_true(s.drop_last()) + if s.last() {
            1int
        } else {
            0int
        }
    }
}

proof fn lemma_count_true_bounds(s: Seq<bool>)
    ensures
        0 <= count_true(s) <= s.len(),
    decreases s.len(),
{
    if s.len() > 0 {
        lemma_count_true_bounds(s.drop_last());
    }
}

proof fn lemma_count_true_update(s: Seq<bool>, i: int)
    requires
        0 <= i < s.len(),
        !s[i],
    ensures
        count_true(s.update(i, true)) == count_true(s) + 1,
    decreases s.len(),
{
    let t = s.update(i, true);
    if i == s.len() - 1 {
        assert(t.drop_last() =~= s.drop_last());
    } else {
        assert(t.drop_last() =~= s.drop_last().update(i, true));
        lemma_count_true_update(s.drop_last(), i);
        assert(t.last() == s.last());
    }
}

/// Mark every live slot that one of the values holds a handle to, and
/// queue it for tracing.
fn mark_value_roots(
    instances: &Vec<Option<Instantce>>,
    values: &Vec<Value>,
    marked: &mut Vec<bool>,
    work: &mut Vec<usize>,
    Ghost(h0): Ghost<Seq<Option<InstantceV>>>,
    Ghost(roots): Ghost<Set<usize>>,
)
    requires
        instances.deep_view() == h0,
        old(marked)@.len() == h0.len(),
        forall|i: int|
            0 <= i < h0.len() && old(marked)@[i] ==> h0[i] is Some && reaches(h0, roots, i as usize),
        forall|t: int|
            0 <= t < old(work)@.len() ==> (old(work)@[t] as int) < h0.len() && old(
                marked,
            )@[old(work)@[t] as int],
        forall|i: int| 0 <= i < h0.len() && old(marked)@[i] ==> old(work)@.contains(i as usize),
        forall|i: usize| #[trigger] value_root(values.deep_view(), i) ==> roots.contains(i),
    ensures
        final(marked)@.len() == h0.len(),
        forall|i: int|
            0 <= i < h0.len() && final(marked)@[i] ==> h0[i] is Some && reaches(
                h0,
                roots,
                i as usize,
            ),
        forall|t: int|
            0 <= t < final(work)@.len() ==> (final(work)@[t] as int) < h0.len()
                && final(marked)@[final(work)@[t] as int],
        forall|i: int| 0 <= i < h0.len() && final(marked)@[i] ==> final(work)@.contains(i as usize),
        forall|i: usize|
            #[trigger] value_root(values.deep_view(), i) && (i as int) < h0.len() && h0[i as int] is Some
                ==> final(marked)@[i as int],
        forall|i: int| 0 <= i < h0.len() && old(marked)@[i] ==> final(marked)@[i],
{
    let n = instances.len();
    let mut k: usize = 0;
    while k < values.len()
        invariant
            instances.deep_view() == h0,
            n as int == h0.len(),
            marked@.len() == h0.len(),
            k <= values@.len(),
            forall|i: int|
                0 <= i < h0.len() && marked@[i] ==> h0[i] is Some && reaches(h0, roots, i as usize),
            forall|t: int|
                0 <= t < work@.len() ==> (work@[t] as int) < h0.len() && marked@[work@[t] as int],
            forall|i: int| 0 <= i < h0.len() && marked@[i] ==> work@.contains(i as usize),
            forall|i: usize| #[trigger] value_root(values.deep_view(), i) ==> roots.contains(i),
            forall|i: usize, kk: int|
                0 <= kk < k && values.deep_view()[kk] == ValueV::Reference(Reference::Object(i))
                    && (i as int) < h0.len() && h0[i as int] is Some ==> marked@[i as int],
            forall|i: int| 0 <= i < h0.len() && old(marked)@[i] ==> marked@[i],
        decreases values@.len() - k,
    {
        match values[k].as_reference() {
            Some(Reference::Object(i)) => {
                proof {
                    assert(values.deep_view()[k as int] == ValueV::Reference(Reference::Object(i)));
                    assert(value_root(values.deep_view(), i));
                }
                if i < n {
                    if instances[i].is_some() && !marked[i] {
                        let ghost pre_marked = marked@;
                        let ghost pre_work = work@;
                        marked[i] = true;
                        work.push(i);
                        proof {
                            assert(h0[i as int] is Some);
                            assert(roots.contains(i));
                            let p = seq![i];
                            assert(p.last() == i);
                            assert(is_path(h0, roots, p));
                            assert(reaches(h0, roots, i));
                            assert forall|j: int|
                                0 <= j < h0.len() && marked@[j] implies work@.contains(j as usize) by {
                                if j == i as int {
                                    assert(work@.last() == i);
                                } else {
                                    assert(pre_marked[j]);
                                    assert(pre_work.contains(j as usize));
                                    let t = choose|t: int|
                                        0 <= t < pre_work.len() && pre_work[t] == j as usize;
                                    assert(work@[t] == j as usize);
                                }
                            }
                        }
                    }
                }
            },
            _ => {},
        }
        k = k + 1;
    }
}

impl Heap {
    /// One reclamation pass, run synchronously at a frame-pop boundary.
    /// The roots are every handle held in any remaining frame's operand
    /// stack or locals; the reachable set closes transitively over
    /// instance fields; every live slot outside it becomes a permanent
    /// hole. When anything was reclaimed the returned line names the
    /// removed slots and the method just exited; otherwise the pass is
    /// silent.
    #[verifier::loop_isolation(false)]
    #[verifier::rlimit(100)]
    pub fn gc(&mut self, stack: &Vec<Frame>, func: &str) -> (log: Option<String>)
        requires
            heap_wf(old(self)@),
        ensures
            heap_wf(final(self)@),
            final(self)@.len() == old(self)@.len(),
            forall|i: int|
                0 <= i < old(self)@.len() ==> final(self)@[i] == (if gc_keep(
                    old(self)@,
                    stack_roots(stack.deep_view()),
                    i,
                ) {
                    old(self)@[i]
                } else {
                    None::<InstantceV>
                }),
            (log is Some) == (reclaimed_upto(
                old(self)@,
                stack_roots(stack.deep_view()),
                old(self)@.len() as int,
            ).len() > 0),
            match log {
                Some(line) => line@ == gc_log_line(
                    old(self)@,
                    stack_roots(stack.deep_view()),
                    func@,
                ),
                None => true,
            },
    {
        let ghost h0 = self@;
        let ghost roots = stack_roots(stack.deep_view());
        let n = self.instances.len();

        let mut marked: Vec<bool> = Vec::new();
        let mut z: usize = 0;
        while z < n
            invariant
                z <= n,
                marked@.len() == z as int,
                forall|i: int| 0 <= i < z as int ==> !marked@[i],
            decreases n - z,
        {
            marked.push(false);
            z = z + 1;
        }

        let mut work: Vec<usize> = Vec::new();

        // Mark the roots: every handle in any remaining frame.
        let mut fi: usize = 0;
        while fi < stack.len()
            invariant
                self@ == h0,
                n as int == h0.len(),
                marked@.len() == h0.len(),
                fi <= stack@.len(),
                forall|i: int|
                    0 <= i < h0.len() && marked@[i] ==> h0[i] is Some && reaches(
                        h0,
                        roots,
                        i as usize,
                    ),
                forall|t: int|
                    0 <= t < work@.len() ==> (work@[t] as int) < h0.len() && marked@[work@[t] as int],
                forall|i: int| 0 <= i < h0.len() && marked@[i] ==> work@.contains(i as usize),
                forall|i: usize, ff: int|
                    0 <= ff < fi as int && #[trigger] frame_has_root(stack.deep_view()[ff], i) && (
                    i as int) < h0.len() && h0[i as int] is Some ==> marked@[i as int],
            decreases stack@.len() - fi,
        {
            let frame = &stack[fi];
            proof {
                assert(frame.deep_view() == stack.deep_view()[fi as int]);
                assert forall|i: usize|
                    #[trigger] value_root(frame.operand_stack.deep_view(), i) implies roots.contains(
                    i,
                ) by {
                    assert(frame_has_root(stack.deep_view()[fi as int], i));
                }
                assert forall|i: usize|
                    #[trigger] value_root(frame.locals.deep_view(), i) implies roots.contains(
                    i,
                ) by {
                    assert(frame_has_root(stack.deep_view()[fi as int], i));
                }
            }
            mark_value_roots(
                &self.instances,
                &frame.operand_stack,
                &mut marked,
                &mut work,
                Ghost(h0),
                Ghost(roots),
            );
            mark_value_roots(
                &self.instances,
                &frame.locals,
                &mut marked,
                &mut work,
                Ghost(h0),
                Ghost(roots),
            );
            fi = fi + 1;
        }

        // Close the reachable set transitively over instance fields,
        // with an explicit worklist: no recursion, safe under cycles.
        proof {
            lemma_count_true_bounds(marked@);
        }
        while work.len() > 0
            invariant
                self@ == h0,
                n as int == h0.len(),
                marked@.len() == h0.len(),
                forall|i: int|
                    0 <= i < h0.len() && marked@[i] ==> h0[i] is Some && reaches(
                        h0,
                        roots,
                        i as usize,
                    ),
                forall|t: int|
                    0 <= t < work@.len() ==> (work@[t] as int) < h0.len() && marked@[work@[t] as int],
                forall|a: usize, b: usize|
                    (a as int) < h0.len() && marked@[a as int] && !work@.contains(a)
                        && #[trigger] heap_edge(h0, a, b) && (b as int) < h0.len() && h0[b as int] is Some
                        ==> marked@[b as int],
                forall|i: usize|
                    #[trigger] roots.contains(i) && (i as int) < h0.len() && h0[i as int] is Some
                        ==> marked@[i as int],
                0 <= count_true(marked@) <= h0.len(),
            decreases h0.len() - count_true(marked@), work@.len(),
        {
            let ghost outer_marked = marked@;
            let ghost outer_work = work@;
            let cur = match work.pop() {
                Some(c) => c,
                None => {
                    proof {
                        assert(false);
                    }
                    0
                },
            };
            proof {
                assert(outer_work.len() > 0);
                assert(outer_work[outer_work.len() - 1] == cur);
                assert(work@ =~= outer_work.drop_last());
                assert forall|a: usize| a != cur && outer_work.contains(a) implies work@.contains(
                    a,
                ) by {
                    let t = choose|t: int| 0 <= t < outer_work.len() && outer_work[t] == a;
                    assert(t < outer_work.len() - 1);
                    assert(work@[t] == a);
                }
            }
            let fields_len = match &self.instances[cur] {
                Some(inst) => inst.fields.len(),
                None => 0,
            };
            let mut j: usize = 0;
            while j < fields_len
                invariant
                    self@ == h0,
                    n as int == h0.len(),
                    marked@.len() == h0.len(),
                    (cur as int) < h0.len(),
                    marked@[cur as int],
                    h0[cur as int] is Some,
                    fields_len as int == h0[cur as int]->Some_0.fields.len(),
                    j <= fields_len,
                    forall|i: int|
                        0 <= i < h0.len() && marked@[i] ==> h0[i] is Some && reaches(
                            h0,
                            roots,
                            i as usize,
                        ),
                    forall|t: int|
                        0 <= t < work@.len() ==> (work@[t] as int) < h0.len() && marked@[work@[t] as int],
                    forall|a: usize, b: usize|
                        (a as int) < h0.len() && marked@[a as int] && !work@.contains(a) && a != cur
                            && #[trigger] heap_edge(h0, a, b) && (b as int) < h0.len()
                            && h0[b as int] is Some ==> marked@[b as int],
                    forall|jj: int, b: usize|
                        0 <= jj < j as int && h0[cur as int]->Some_0.fields[jj].1
                            == ValueV::Reference(Reference::Object(b)) && (b as int) < h0.len()
                            && h0[b as int] is Some ==> marked@[b as int],
                    forall|i: usize|
                        #[trigger] roots.contains(i) && (i as int) < h0.len()
                            && h0[i as int] is Some ==> marked@[i as int],
                    forall|i: int| 0 <= i < h0.len() && outer_marked[i] ==> marked@[i],
                    count_true(outer_marked) <= count_true(marked@) <= h0.len(),
                    work@.len() == outer_work.len() - 1 || count_true(marked@) > count_true(
                        outer_marked,
                    ),
                decreases fields_len - j,
            {
                let target: Option<usize> = match &self.instances[cur] {
                    Some(inst) => match &inst.fields[j].1 {
                        Value::Reference(Reference::Object(t)) => Some(*t),
                        _ => None,
                    },
                    None => None,
                };
                match target {
                    Some(t) => {
                        proof {
                            assert(h0[cur as int]->Some_0.fields[j as int].1 == ValueV::Reference(
                                Reference::Object(t),
                            ));
                        }
                        if t < n {
                            if self.instances[t].is_some() && !marked[t] {
                                let ghost pre_marked = marked@;
                                let ghost pre_work = work@;
                                marked[t] = true;
                                work.push(t);
                                proof {
                                    lemma_count_true_update(pre_marked, t as int);
                                    lemma_count_true_bounds(marked@);
                                    assert(work@.last() == t);
                                    assert(work@.contains(t));
                                    assert forall|a: usize| pre_work.contains(a) implies work@
                                        .contains(a) by {
                                        let idx = choose|idx: int|
                                            0 <= idx < pre_work.len() && pre_work[idx] == a;
                                        assert(work@[idx] == a);
                                    }
                                    assert(heap_edge(h0, cur, t));
                                    let p = choose|p: Seq<usize>|
                                        is_path(h0, roots, p) && p.last() == cur;
                                    let q = p.push(t);
                                    assert forall|kk: int|
                                        0 <= kk < q.len() - 1 implies #[trigger] heap_edge(
                                        h0,
                                        q[kk],
                                        q[kk + 1],
                                    ) by {
                                        if kk < p.len() - 1 {
                                            assert(q[kk] == p[kk]);
                                            assert(q[kk + 1] == p[kk + 1]);
                                            assert(heap_edge(h0, p[kk], p[kk + 1]));
                                        } else {
                                            assert(q[kk] == p.last());
                                            assert(q[kk + 1] == t);
                                        }
                                    }
                                    assert(q[0] == p[0]);
                                    assert(is_path(h0, roots, q));
                                    assert(q.last() == t);
                                    assert(reaches(h0, roots, t));
                                }
                            }
                        }
                    },
                    None => {},
                }
                j = j + 1;
            }
            proof {
                // Every edge out of the slot just traced now lands marked.
                assert forall|a: usize, b: usize|
                    (a as int) < h0.len() && marked@[a as int] && !work@.contains(a)
                        && #[trigger] heap_edge(h0, a, b) && (b as int) < h0.len()
                        && h0[b as int] is Some implies marked@[b as int] by {
                    if a == cur {
                        let jj = choose|jj: int|
                            0 <= jj < h0[cur as int]->Some_0.fields.len()
                                && h0[cur as int]->Some_0.fields[jj].1 == ValueV::Reference(
                                Reference::Object(b),
                            );
                        assert(marked@[b as int]);
                    }
                }
            }
        }

        // Every marked slot is reachable and every reachable live slot
        // is marked.
        proof {
            assert forall|i: int| 0 <= i < h0.len() implies (marked@[i] <==> gc_keep(
                h0,
                roots,
                i,
            )) by {
                if gc_keep(h0, roots, i) {
                    let p = choose|p: Seq<usize>|
                        is_path(h0, roots, p) && p.last() == i as usize;
                    assert forall|a: usize| !(work@.contains(a)) by {
                        assert(work@.len() == 0);
                    }
                    lemma_path_marked(h0, roots, marked@, p);
                }
            }
        }

        // Sweep: every live slot outside the reachable set becomes a
        // permanent hole, recorded in increasing slot order.
        let mut reclaimed_any = false;
        let mut body = String::new();
        let mut i: usize = 0;
        while i < n
            invariant
                n as int == h0.len(),
                marked@.len() == h0.len(),
                self@.len() == h0.len(),
                i <= n,
                forall|j: int| i as int <= j < h0.len() ==> self@[j] == h0[j],
                forall|j: int|
                    0 <= j < i as int ==> self@[j] == (if gc_keep(h0, roots, j) {
                        h0[j]
                    } else {
                        None::<InstantceV>
                    }),
                forall|j: int| 0 <= j < h0.len() ==> (marked@[j] <==> gc_keep(h0, roots, j)),
                reclaimed_any == (reclaimed_upto(h0, roots, i as int).len() > 0),
                body@ == join_indices(reclaimed_upto(h0, roots, i as int)),
            decreases n - i,
        {
            let is_live = self.instances[i].is_some();
            if is_live && !marked[i] {
                let ghost pre = self@;
                let ghost prev_list = reclaimed_upto(h0, roots, i as int);
                self.instances[i] = None;
                proof {
                    assert(self@ =~= pre.update(i as int, None::<InstantceV>));
                    assert(reclaimed_upto(h0, roots, i as int + 1) =~= prev_list.push(i));
                }
                if reclaimed_any {
                    body.append(", ");
                    body.append(fmt_u64(i as u64).as_str());
                    proof {
                        assert(reclaimed_upto(h0, roots, i as int + 1).drop_last() =~= prev_list);
                        assert(body@ =~= join_indices(reclaimed_upto(h0, roots, i as int + 1)));
                    }
                } else {
                    body.append(fmt_u64(i as u64).as_str());
                    proof {
                        assert(prev_list.len() == 0);
                        assert(body@ =~= join_indices(reclaimed_upto(h0, roots, i as int + 1)));
                    }
                }
                reclaimed_any = true;
            } else {
                proof {
                    assert(reclaimed_upto(h0, roots, i as int + 1) == reclaimed_upto(
                        h0,
                        roots,
                        i as int,
                    ));
                }
            }
            i = i + 1;
        }

        proof {
            assert forall|ii: int|
                0 <= ii < self@.len() && self@[ii] is Some implies (#[trigger] self@[ii])->Some_0.wf()
                && self@[ii]->Some_0.index == ii by {
                assert(self@[ii] == h0[ii]);
            }
        }

        if reclaimed_any {
            let mut line: String = "GC: Remove Objects: [".to_owned();
            line.append(body.as_str());
            line.append("] after ");
            line.append(func);
            proof {
                assert(line@ =~= gc_log_line(h0, roots, func@));
            }
            Some(line)
        } else {
            None
        }
    }
}

} // verus!
