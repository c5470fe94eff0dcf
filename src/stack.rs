//! The engine's value stack: slots, their mathematical model, and signed index resolution.
use vstd::prelude::*;

verus! {

/// Class of an object slot, as far as the marshaling layer can tell classes apart.
#[derive(Clone, Copy, Debug, PartialEq, Eq)]
pub enum ObjectClass {
    /// An ordinary object.
    Plain,
    /// A callable object.
    Function,
    /// An error instance carrying the engine's internal error code.
    Error(u32),
}

/// One value held by the engine, in any stack position or stash slot.
#[derive(Debug)]
pub enum Slot {
    Undefined,
    Null,
    Boolean(bool),
    /// A double, held as its IEEE-754 bit pattern.
    Number(u64),
    Str(String),
    /// An array with its elements in index order.
    Array(Vec<Slot>),
    /// An object with its own enumerable properties in enumeration order.
    Object(ObjectClass, Vec<(String, Slot)>),
    Buffer(Vec<u8>),
    Pointer,
    LightFunc,
}

/// Mathematical model of a [`Slot`].
pub enum SlotV {
    Undefined,
    Null,
    Boolean(bool),
    Number(u64),
    Str(Seq<char>),
    Array(Seq<SlotV>),
    Object(ObjectClass, Seq<(Seq<char>, SlotV)>),
    Buffer(Seq<u8>),
    Pointer,
    LightFunc,
}

impl View for Slot {
    type V = SlotV;

    open spec fn view(&self) -> SlotV {
        slot_view(*self)
    }
}

/// The model of a slot.
pub open spec fn slot_view(s: Slot) -> SlotV
    decreases s,
{
    match s {
        Slot::Undefined => SlotV::Undefined,
        Slot::Null => SlotV::Null,
        Slot::Boolean(b) => SlotV::Boolean(b),
        Slot::Number(n) => SlotV::Number(n),
        Slot::Str(t) => SlotV::Str(t@),
        Slot::Array(items) => SlotV::Array(items_view(items@)),
        Slot::Object(c, props) => SlotV::Object(c, props_view(props@)),
        Slot::Buffer(b) => SlotV::Buffer(b@),
        Slot::Pointer => SlotV::Pointer,
        Slot::LightFunc => SlotV::LightFunc,
    }
}

/// The models of a sequence of slots, element by element.
pub open spec fn items_view(items: Seq<Slot>) -> Seq<SlotV>
    decreases items,
{
    if items.len() == 0 {
        Seq::empty()
    } else {
        items_view(items.subrange(0, items.len() - 1)).push(slot_view(items[items.len() - 1]))
    }
}

/// The models of a sequence of keyed slots, entry by entry.
pub open spec fn props_view(props: Seq<(String, Slot)>) -> Seq<(Seq<char>, SlotV)>
    decreases props,
{
    if props.len() == 0 {
        Seq::empty()
    } else {
        props_view(props.subrange(0, props.len() - 1)).push(
            (props[props.len() - 1].0@, slot_view(props[props.len() - 1].1)),
        )
    }
}

/// [`items_view`] maps element by element.
pub proof fn lemma_items_view(items: Seq<Slot>)
    ensures
        items_view(items).len() == items.len(),
        forall|i: int| 0 <= i < items.len() ==> #[trigger] items_view(items)[i] == items[i]@,
    decreases items.len(),
{
    if items.len() > 0 {
        lemma_items_view(items.subrange(0, items.len() - 1));
    }
}

/// [`props_view`] maps entry by entry.
pub proof fn lemma_props_view(props: Seq<(String, Slot)>)
    ensures
        props_view(props).len() == props.len(),
        forall|i: int|
            0 <= i < props.len() ==> #[trigger] props_view(props)[i] == (props[i].0@, props[i].1@),
    decreases props.len(),
{
    if props.len() > 0 {
        lemma_props_view(props.subrange(0, props.len() - 1));
    }
}

/// An independent copy of a property list.
pub fn duplicate_props(props: &Vec<(String, Slot)>) -> (r: Vec<(String, Slot)>)
    ensures
        props_view(r@) == props_view(props@),
{
    let mut out: Vec<(String, Slot)> = Vec::new();
    let mut i: usize = 0;
    while i < props.len()
        invariant
            i <= props.len(),
            out.len() == i,
            forall|j: int|
                0 <= j < i ==> (#[trigger] out[j]).0@ == props[j].0@ && out[j].1@ == props[j].1@,
        decreases props.len() - i,
    {
        out.push((props[i].0.clone(), props[i].1.duplicate()));
        i += 1;
    }
    proof {
        lemma_props_view(out@);
        lemma_props_view(props@);
        assert(props_view(out@) =~= props_view(props@));
    }
    out
}

/// Type tag that the engine reports for a stack position.
#[derive(Clone, Copy, Debug, PartialEq, Eq)]
pub enum TypeTag {
    /// The position holds no value (it lies outside the stack).
    Absent,
    Undefined,
    Null,
    Boolean,
    Number,
    String,
    Object,
    Buffer,
    Pointer,
    LightFunc,
}

/// The type tag of a slot: arrays and functions are objects to the engine.
pub open spec fn tag_of(s: SlotV) -> TypeTag {
    match s {
        SlotV::Undefined => TypeTag::Undefined,
        SlotV::Null => TypeTag::Null,
        SlotV::Boolean(_) => TypeTag::Boolean,
        SlotV::Number(_) => TypeTag::Number,
        SlotV::Str(_) => TypeTag::String,
        SlotV::Array(_) => TypeTag::Object,
        SlotV::Object(_, _) => TypeTag::Object,
        SlotV::Buffer(_) => TypeTag::Buffer,
        SlotV::Pointer => TypeTag::Pointer,
        SlotV::LightFunc => TypeTag::LightFunc,
    }
}

impl Slot {
    /// An independent copy of this slot.
    pub fn duplicate(&self) -> (r: Slot)
        ensures
            r@ == self@,
        decreases self,
    {
        match self {
            Slot::Undefined => Slot::Undefined,
            Slot::Null => Slot::Null,
            Slot::Boolean(b) => Slot::Boolean(*b),
            Slot::Number(n) => Slot::Number(*n),
            Slot::Str(s) => Slot::Str(s.clone()),
            Slot::Array(items) => {
                let mut out: Vec<Slot> = Vec::new();
                let mut i: usize = 0;
                while i < items.len()
                    invariant
                        *self == Slot::Array(*items),
                        i <= items.len(),
                        out.len() == i,
                        forall|j: int| 0 <= j < i ==> (#[trigger] out[j])@ == items[j]@,
                    decreases items.len() - i,
                {
                    proof {
                        assert(decreases_to!(*self => (*self)->Array_0@[i as int]));
                    }
                    out.push(items[i].duplicate());
                    i += 1;
                }
                let ghost og = out;
                let r = Slot::Array(out);
                proof {
                    lemma_items_view(og@);
                    lemma_items_view(items@);
                }
                assert(r@->Array_0 =~= self@->Array_0);
                assert(r@ == self@);
                r
            },
            Slot::Object(c, props) => {
                let mut out: Vec<(String, Slot)> = Vec::new();
                let mut i: usize = 0;
                while i < props.len()
                    invariant
                        *self == Slot::Object(*c, *props),
                        i <= props.len(),
                        out.len() == i,
                        forall|j: int|
                            0 <= j < i ==> (#[trigger] out[j]).0@ == props[j].0@ && out[j].1@
                                == props[j].1@,
                    decreases props.len() - i,
                {
                    proof {
                        assert(decreases_to!(*self => (*self)->Object_1@[i as int].1));
                    }
                    let k = props[i].0.clone();
                    let v = props[i].1.duplicate();
                    out.push((k, v));
                    i += 1;
                }
                let ghost og = out;
                let r = Slot::Object(*c, out);
                proof {
                    lemma_props_view(og@);
                    lemma_props_view(props@);
                }
                assert(r@->Object_1 =~= self@->Object_1);
                assert(r@ == self@);
                r
            },
            Slot::Buffer(b) => {
                let c = b.clone();
                assert(c@ =~= b@);
                let r = Slot::Buffer(c);
                assert(r@ == self@);
                r
            },
            Slot::Pointer => Slot::Pointer,
            Slot::LightFunc => Slot::LightFunc,
        }
    }

    /// The engine's type tag for this slot.
    pub fn type_tag(&self) -> (t: TypeTag)
        ensures
            t == tag_of(self@),
    {
        match self {
            Slot::Undefined => TypeTag::Undefined,
            Slot::Null => TypeTag::Null,
            Slot::Boolean(_) => TypeTag::Boolean,
            Slot::Number(_) => TypeTag::Number,
            Slot::Str(_) => TypeTag::String,
            Slot::Array(_) => TypeTag::Object,
            Slot::Object(_, _) => TypeTag::Object,
            Slot::Buffer(_) => TypeTag::Buffer,
            Slot::Pointer => TypeTag::Pointer,
            Slot::LightFunc => TypeTag::LightFunc,
        }
    }
}

/// Resolves a signed stack index against a stack of height `len`: a non-negative index counts
/// from the base, a negative one from the top. `None` when the position lies outside the stack.
pub open spec fn resolve_index(len: int, idx: int) -> Option<int> {
    if idx >= 0 {
        if idx < len {
            Some(idx)
        } else {
            None
        }
    } else if len + idx >= 0 {
        Some(len + idx)
    } else {
        None
    }
}

/// The engine's value stack.
pub struct ValueStack {
    slots: Vec<Slot>,
}

impl View for ValueStack {
    type V = Seq<SlotV>;

    closed spec fn view(&self) -> Seq<SlotV> {
        self.slots@.map_values(|s: Slot| s@)
    }
}

impl ValueStack {
    /// An empty stack.
    pub fn new() -> (r: ValueStack)
        ensures
            r@ == Seq::<SlotV>::empty(),
    {
        let r = ValueStack { slots: Vec::new() };
        assert(r@ =~= Seq::<SlotV>::empty());
        r
    }

    /// The stack height.
    pub fn top(&self) -> (r: usize)
        ensures
            r == self@.len(),
    {
        self.slots.len()
    }

    /// Resolves a signed index to an absolute position, once, before any push or pop shifts
    /// what a negative index names.
    pub fn normalize(&self, idx: i32) -> (r: Option<usize>)
        ensures
            r matches Some(p) ==> resolve_index(self@.len() as int, idx as int) == Some(p as int),
            r is None ==> resolve_index(self@.len() as int, idx as int) is None,
    {
        let len = self.slots.len();
        if idx >= 0 {
            if (idx as usize) < len {
                Some(idx as usize)
            } else {
                None
            }
        } else {
            let back = (-(idx as i64)) as usize;
            if back <= len {
                Some(len - back)
            } else {
                None
            }
        }
    }

    /// The slot at an absolute position.
    pub fn get(&self, pos: usize) -> (r: &Slot)
        requires
            pos < self@.len(),
        ensures
            r@ == self@[pos as int],
    {
        &self.slots[pos]
    }

    /// The type tag at a signed index; [`TypeTag::Absent`] outside the stack.
    pub fn type_at(&self, idx: i32) -> (t: TypeTag)
        ensures
            t == match resolve_index(self@.len() as int, idx as int) {
                Some(p) => tag_of(self@[p]),
                None => TypeTag::Absent,
            },
    {
        match self.normalize(idx) {
            Some(p) => self.slots[p].type_tag(),
            None => TypeTag::Absent,
        }
    }

    /// Pushes a slot.
    pub fn push(&mut self, s: Slot)
        ensures
            final(self)@ == old(self)@.push(s@),
    {
        self.slots.push(s);
        assert(final(self)@ =~= old(self)@.push(s@));
    }

    /// Pushes a copy of the slot at an absolute position.
    pub fn dup(&mut self, pos: usize)
        requires
            pos < old(self)@.len(),
        ensures
            final(self)@ == old(self)@.push(old(self)@[pos as int]),
    {
        let s = self.slots[pos].duplicate();
        self.push(s);
    }

    /// Pops the top slot.
    pub fn pop(&mut self) -> (r: Slot)
        requires
            old(self)@.len() > 0,
        ensures
            r@ == old(self)@.last(),
            final(self)@ == old(self)@.drop_last(),
    {
        let r = self.slots.pop().unwrap();
        assert(final(self)@ =~= old(self)@.drop_last());
        r
    }

    proof fn lemma_len(&self)
        ensures
            self@.len() == self.slots.len(),
    {
    }

    /// Pops down to `height`; a stack already at or below it is left as it is.
    pub fn unwind_to(&mut self, height: usize)
        ensures
            final(self)@ == if old(self)@.len() > height {
                old(self)@.subrange(0, height as int)
            } else {
                old(self)@
            },
    {
        proof {
            self.lemma_len();
            assert(self@ =~= old(self)@.subrange(0, self@.len() as int));
        }
        while self.slots.len() > height
            invariant
                self@.len() == self.slots.len(),
                self@ == old(self)@.subrange(0, self@.len() as int),
                self@.len() <= old(self)@.len(),
                old(self)@.len() > height ==> self@.len() >= height,
                old(self)@.len() <= height ==> self@ == old(self)@,
            decreases self.slots.len(),
        {
            self.pop();
            proof {
                self.lemma_len();
                assert(self@ =~= old(self)@.subrange(0, self@.len() as int));
            }
        }
        assert(old(self)@.len() > height ==> self@ =~= old(self)@.subrange(0, height as int));
    }
}


/// Records the stack height on acquisition and pops back down to it on release, whatever the
/// guarded work left behind. `keep` and `unkeep` track values that must outlive the release.
pub struct StackGuard {
    start: usize,
    kept: usize,
}

impl StackGuard {
    /// The height recorded on acquisition.
    pub closed spec fn start(&self) -> nat {
        self.start as nat
    }

    /// How many values above the recorded height survive the release.
    pub closed spec fn kept(&self) -> nat {
        self.kept as nat
    }

    /// The height that the release restores.
    pub open spec fn height(&self) -> nat {
        self.start() + self.kept()
    }

    /// Records the current height of `stack`.
    pub fn new(stack: &ValueStack) -> (g: StackGuard)
        ensures
            g.start() == stack@.len(),
            g.kept() == 0,
    {
        StackGuard { start: stack.top(), kept: 0 }
    }

    /// Marks one more value above the recorded height as surviving the release.
    pub fn keep(&mut self)
        requires
            old(self).height() < usize::MAX,
        ensures
            final(self).start() == old(self).start(),
            final(self).kept() == old(self).kept() + 1,
    {
        self.kept = self.kept + 1;
    }

    /// Marks one value fewer as surviving the release.
    pub fn unkeep(&mut self)
        requires
            old(self).kept() > 0,
        ensures
            final(self).start() == old(self).start(),
            final(self).kept() == old(self).kept() - 1,
    {
        self.kept = self.kept - 1;
    }

    /// The absolute position of the last value kept.
    pub fn index(&self) -> (r: usize)
        requires
            self.kept() > 0,
            self.height() <= usize::MAX,
        ensures
            r == self.height() - 1,
    {
        self.start + self.kept - 1
    }

    /// Pops `stack` down to the guarded height; a stack below it is left as it is.
    pub fn release(self, stack: &mut ValueStack)
        requires
            self.height() <= usize::MAX,
        ensures
            final(stack)@ == if old(stack)@.len() > self.height() {
                old(stack)@.subrange(0, self.height() as int)
            } else {
                old(stack)@
            },
    {
        stack.unwind_to(self.start + self.kept);
    }
}

} // verus!
