//! Contexts, stash handles and the call protocol.
use std::hash::BuildHasher;
use std::collections::hash_map::RandomState;
use std::collections::HashMap;
use vstd::prelude::*;
use vstd::string::StringExecFns;
use crate::error::{
    bind, bind_property, error_code_of, is_error_of, known_code, Error, JsError, ERR_TYPE_ERROR,
};
use crate::stack::{
    duplicate_props, lemma_props_view, props_view, resolve_index, ObjectClass, Slot, SlotV,
    StackGuard, ValueStack,
};
use crate::lookup::{property_value, read_property};
use crate::value::{slot_of, value_of, well_formed, Value};

verus! {

broadcast use vstd::std_specs::hash::group_hash_axioms;

/// Stands in for a module callback that was never installed.
pub struct NoModule;

/// Relies on std's `RandomState::new`: every call draws fresh hash keys. Nothing is promised.
#[verifier::external_body]
fn fresh_hash_state() -> RandomState {
    RandomState::new()
}

/// Relies on std's `BuildHasher::hash_one`: the hash of a fixed value under the keys of
/// `state`, which tells two contexts apart with overwhelming probability. Nothing is promised.
#[verifier::external_body]
fn hash_of_zero(state: &RandomState) -> u64 {
    state.hash_one(0u8)
}

/// Configuration of a [`Context`] before it is created. `R` resolves a requested module id
/// against the id of the requiring module; `L` loads the source text of a resolved id. The
/// engine calls both while it runs `require`.
pub struct ContextBuilder<R, L> {
    module_resolver: Option<R>,
    module_loader: Option<L>,
}

impl<R, L> ContextBuilder<R, L> {
    /// The module resolver, once one is given.
    pub closed spec fn resolver(&self) -> Option<R> {
        self.module_resolver
    }

    /// The module loader, once one is given.
    pub closed spec fn loader(&self) -> Option<L> {
        self.module_loader
    }

    /// Whether a module resolver was given.
    pub open spec fn has_resolver(&self) -> bool {
        self.resolver() is Some
    }

    /// Whether a module loader was given.
    pub open spec fn has_loader(&self) -> bool {
        self.loader() is Some
    }

    /// Sets the module resolver, replacing any earlier one.
    pub fn with_module_resolver<R2>(self, module_resolver: R2) -> (r: ContextBuilder<R2, L>)
        ensures
            r.resolver() == Some(module_resolver),
            r.loader() == self.loader(),
    {
        ContextBuilder { module_resolver: Some(module_resolver), module_loader: self.module_loader }
    }

    /// Sets the module loader, replacing any earlier one.
    pub fn with_module_loader<L2>(self, module_loader: L2) -> (r: ContextBuilder<R, L2>)
        ensures
            r.loader() == Some(module_loader),
            r.resolver() == self.resolver(),
    {
        ContextBuilder { module_resolver: self.module_resolver, module_loader: Some(module_loader) }
    }

    /// Creates the configured context.
    pub fn build(self) -> (c: Context<R, L>)
        ensures
            c.fresh(),
            c.has_modules() == (self.has_resolver() && self.has_loader()),
            c.has_modules() ==> c.modules() == (self.resolver()->Some_0, self.loader()->Some_0),
    {
        Context::from_builder(self)
    }
}

/// One isolated engine heap: its value stack, its heap stash and its global object.
pub struct Context<R, L> {
    id: u64,
    stack: ValueStack,
    stash: HashMap<u32, Slot>,
    next_stash_idx: u32,
    global: Vec<(String, Slot)>,
    modules: Option<(R, L)>,
}

impl Context<NoModule, NoModule> {
    /// Creates a context without module callbacks.
    pub fn new() -> (c: Context<NoModule, NoModule>)
        ensures
            c.fresh(),
            !c.has_modules(),
    {
        Context::from_builder(Context::builder())
    }

    /// A builder without module callbacks.
    pub fn builder() -> (b: ContextBuilder<NoModule, NoModule>)
        ensures
            !b.has_resolver(),
            !b.has_loader(),
    {
        ContextBuilder { module_resolver: None, module_loader: None }
    }
}

impl<R, L> Context<R, L> {
    /// The identity that handles minted here carry.
    pub closed spec fn identity(&self) -> u64 {
        self.id
    }

    /// The value stack.
    pub closed spec fn stack(&self) -> Seq<SlotV> {
        self.stack@
    }

    /// The heap stash: slot index to value.
    pub closed spec fn stash(&self) -> Map<u32, SlotV> {
        self.stash@.map_values(|s: Slot| s@)
    }

    /// The next stash slot index to allocate.
    pub closed spec fn counter(&self) -> u32 {
        self.next_stash_idx
    }

    /// The global object.
    pub closed spec fn global(&self) -> SlotV {
        SlotV::Object(ObjectClass::Plain, props_view(self.global@))
    }

    /// Whether both module callbacks are installed.
    pub closed spec fn has_modules(&self) -> bool {
        self.modules is Some
    }

    /// The installed module callbacks.
    pub closed spec fn modules(&self) -> (R, L)
        recommends
            self.has_modules(),
    {
        self.modules->Some_0
    }

    /// A context as created: empty stack, empty stash, counter at zero, empty global object.
    pub open spec fn fresh(&self) -> bool {
        &&& self.stack() == Seq::<SlotV>::empty()
        &&& self.stash() == Map::<u32, SlotV>::empty()
        &&& self.counter() == 0
        &&& self.global() == SlotV::Object(ObjectClass::Plain, Seq::empty())
    }

    /// Module callbacks take effect only as a pair.
    fn from_builder(builder: ContextBuilder<R, L>) -> (c: Context<R, L>)
        ensures
            c.fresh(),
            c.has_modules() == (builder.has_resolver() && builder.has_loader()),
            c.has_modules() ==> c.modules() == (builder.resolver()->Some_0, builder.loader()->Some_0),
    {
        let modules = match (builder.module_resolver, builder.module_loader) {
            (Some(r), Some(l)) => Some((r, l)),
            _ => None,
        };
        let c = Context {
            id: hash_of_zero(&fresh_hash_state()),
            stack: ValueStack::new(),
            stash: HashMap::new(),
            next_stash_idx: 0,
            global: Vec::new(),
            modules,
        };
        proof {
            lemma_props_view(Seq::<(String, Slot)>::empty());
            assert(c.global() == SlotV::Object(ObjectClass::Plain, Seq::empty()));
            assert(c.stash() =~= Map::<u32, SlotV>::empty());
        }
        c
    }

    /// The module callbacks, for the glue that hands them to the engine.
    pub fn module_callbacks(&self) -> (r: Option<&(R, L)>)
        ensures
            r is Some == self.has_modules(),
            r matches Some(m) ==> *m == self.modules(),
    {
        self.modules.as_ref()
    }

    /// The slot at a signed stack index; `None` outside the stack.
    pub fn peek(&self, idx: i32) -> (r: Option<&Slot>)
        ensures
            r matches Some(s) ==> (resolve_index(self.stack().len() as int, idx as int) matches Some(
                p,
            ) && s@ == self.stack()[p]),
            r is None ==> resolve_index(self.stack().len() as int, idx as int) is None,
    {
        match self.stack.normalize(idx) {
            Some(p) => Some(self.stack.get(p)),
            None => None,
        }
    }

    /// The host value of the slot at a signed stack index; `None` outside the stack.
    pub fn to_value_at(&self, idx: i32) -> (r: Option<Value>)
        ensures
            r matches Some(v) ==> (resolve_index(self.stack().len() as int, idx as int) matches Some(
                p,
) && v@ == value_of(self.stack()[p]) && well_formed(v@)),
            r is None ==> resolve_index(self.stack().len() as int, idx as int) is None,
    {
        match self.peek(idx) {
            Some(s) => Some(Value::from_slot(s)),
            None => None,
        }
    }

    /// The stack height.
    pub fn stack_height(&self) -> (r: usize)
        ensures
            r == self.stack().len(),
    {
        self.stack.top()
    }
}


/// The stash slot index allocated after `c`: the counter wraps around.
pub open spec fn next_counter(c: u32) -> u32 {
    if c == u32::MAX {
        0
    } else {
        (c + 1) as u32
    }
}

/// A handle to a value kept alive in the heap stash of the context that minted it.
///
/// A handle does not release its slot when dropped, since it holds no borrow of its context:
/// give it back with [`Context::release`], which deletes the slot. A handle dropped without
/// that leaves its slot, and the value, in the stash for the context's lifetime.
#[derive(Debug)]
pub struct Reference {
    ctx_id: u64,
    stash_idx: u32,
}

impl Reference {
    /// The identity of the minting context.
    pub closed spec fn owner(&self) -> u64 {
        self.ctx_id
    }

    /// The stash slot index.
    pub closed spec fn index(&self) -> u32 {
        self.stash_idx
    }
}

/// How a call or an evaluation that the engine ran ended: with a returned value, or with a
/// thrown value and the engine's safe string conversion of it.
pub enum Outcome {
    Returned(Slot),
    Threw(Slot, String),
}

/// An outcome the error extraction can classify.
pub open spec fn known_outcome(o: &Outcome) -> bool {
    match o {
        Outcome::Returned(_) => true,
        Outcome::Threw(v, _) => known_code(error_code_of(v@)),
    }
}

/// The `TypeError` instance the engine throws with `message`.
pub open spec fn type_error(message: Seq<char>) -> SlotV {
    SlotV::Object(ObjectClass::Error(ERR_TYPE_ERROR), seq![("message"@, SlotV::Str(message))])
}

/// Whether the engine can call a value.
pub open spec fn callable(s: SlotV) -> bool {
    s is LightFunc || s matches SlotV::Object(ObjectClass::Function, _)
}

/// How the engine names a value of each type in a message.
pub open spec fn kind_word(s: SlotV) -> Seq<char> {
    match s {
        SlotV::Undefined => "undefined"@,
        SlotV::Null => "null"@,
        SlotV::Boolean(_) => "boolean"@,
        SlotV::Number(_) => "number"@,
        SlotV::Str(_) => "string"@,
        SlotV::Array(_) => "object"@,
        SlotV::Object(_, _) => "object"@,
        SlotV::Buffer(_) => "buffer"@,
        SlotV::Pointer => "pointer"@,
        SlotV::LightFunc => "function"@,
    }
}

/// Whether invoking `callee` succeeds, when `outcome` is how the callee itself ends: a value
/// that cannot be called makes the engine throw instead.
pub open spec fn invoked_ok(callee: SlotV, outcome: &Outcome) -> bool {
    callable(callee) && outcome is Returned
}

/// The value that invoking `callee` leaves: the returned or thrown value, or the `TypeError`
/// whose message is the callee's kind followed by `suffix`.
pub open spec fn invoked_value(callee: SlotV, outcome: &Outcome, suffix: Seq<char>) -> SlotV {
    if !callable(callee) {
        type_error(kind_word(callee) + suffix)
    } else {
        match outcome {
            Outcome::Returned(v) => v@,
            Outcome::Threw(t, _) => t@,
        }
    }
}

/// The safe string conversion of what invoking `callee` throws.
pub open spec fn invoked_text(callee: SlotV, outcome: &Outcome, suffix: Seq<char>) -> Seq<char> {
    if !callable(callee) {
        kind_word(callee) + suffix
    } else {
        match outcome {
            Outcome::Returned(_) => Seq::empty(),
            Outcome::Threw(_, t) => t@,
        }
    }
}

/// Whether `r` and the context `new` are how the context `old` ends an operation whose result
/// is `v` (when `ok`) or the thrown `v` with safe string `text` (otherwise): a fresh handle to
/// `v`, or the error extracted from it. The stack is as it was.
pub open spec fn settled<R, L>(
    old: &Context<R, L>,
    new: &Context<R, L>,
    r: &Result<Reference, Error>,
    ok: bool,
    v: SlotV,
    text: Seq<char>,
) -> bool {
    &&& new.stack() == old.stack()
    &&& new.identity() == old.identity()
    &&& new.global() == old.global()
    &&& new.has_modules() == old.has_modules()
    &&& if ok {
        &&& r matches Ok(h)
        &&& h.owner() == old.identity()
        &&& h.index() == old.counter()
        &&& new.stash() == old.stash().insert(old.counter(), v)
        &&& new.counter() == next_counter(old.counter())
    } else {
        &&& r matches Err(Error::Js { raw }) && is_error_of(*raw, v, text)
        &&& new.stash() == old.stash()
        &&& new.counter() == old.counter()
    }
}

/// The kind word of a slot, as [`kind_word`] describes.
fn kind_word_of(s: &Slot) -> (r: String)
    ensures
        r@ == kind_word(s@),
{
    let w = match s {
        Slot::Undefined => "undefined",
        Slot::Null => "null",
        Slot::Boolean(_) => "boolean",
        Slot::Number(_) => "number",
        Slot::Str(_) => "string",
        Slot::Array(_) => "object",
        Slot::Object(_, _) => "object",
        Slot::Buffer(_) => "buffer",
        Slot::Pointer => "pointer",
        Slot::LightFunc => "function",
    };
    proof {
        reveal_strlit("undefined");
        reveal_strlit("null");
        reveal_strlit("boolean");
        reveal_strlit("number");
        reveal_strlit("string");
        reveal_strlit("object");
        reveal_strlit("buffer");
        reveal_strlit("pointer");
        reveal_strlit("function");
    }
    w.to_owned()
}

/// The slots that pushing each argument creates, in order, given the context's stash.
pub open spec fn arg_slots<A: Argument>(args: Seq<A>, stash: Map<u32, SlotV>) -> Seq<SlotV> {
    Seq::new(args.len(), |i: int| args[i].slot_in(stash))
}

/// A call frame built on the stack and waiting for the engine to run it: the bracketed value
/// at `base`, the callee at `callee`, then `this` for a method call, then `nargs` arguments.
pub struct CallFrame {
    base: usize,
    callee_pos: usize,
    nargs: usize,
    construct: bool,
}

impl CallFrame {
    /// Where the frame starts; finishing the call pops the stack back to here.
    pub closed spec fn base(&self) -> nat {
        self.base as nat
    }

    /// The position of the callee.
    pub closed spec fn callee(&self) -> nat {
        self.callee_pos as nat
    }

    /// How many arguments the frame holds.
    pub closed spec fn nargs(&self) -> nat {
        self.nargs as nat
    }

    /// Whether the callee runs as a constructor.
    pub closed spec fn constructs(&self) -> bool {
        self.construct
    }

    /// What follows a callee's kind in the message of the error when it cannot run.
    pub open spec fn suffix(&self) -> Seq<char> {
        if self.constructs() {
            " not constructable"@
        } else {
            " not callable"@
        }
    }

    /// The position of the callee, for the glue that hands the frame to the engine.
    pub fn callee_index(&self) -> (r: usize)
        ensures
            r == self.callee(),
    {
        self.callee_pos
    }

    /// How many arguments the frame holds.
    pub fn arg_count(&self) -> (r: usize)
        ensures
            r == self.nargs(),
    {
        self.nargs
    }

    /// Whether the callee runs as a constructor.
    pub fn is_construct(&self) -> (r: bool)
        ensures
            r == self.constructs(),
    {
        self.construct
    }
}

/// Whether two contexts agree on everything but the stack.
pub open spec fn same_heap<R, L>(a: &Context<R, L>, b: &Context<R, L>) -> bool {
    &&& a.identity() == b.identity()
    &&& a.stash() == b.stash()
    &&& a.counter() == b.counter()
    &&& a.global() == b.global()
    &&& a.has_modules() == b.has_modules()
}

/// Something that can be pushed as an argument of a call.
pub trait Argument {
    /// Whether this argument can be pushed onto the stack of the context with identity `id` and
    /// stash `stash`.
    spec fn can_push(&self, id: u64, stash: Map<u32, SlotV>) -> bool;

    /// The slot that pushing this argument creates, given the context's stash.
    spec fn slot_in(&self, stash: Map<u32, SlotV>) -> SlotV;

    /// Pushes this argument onto the stack of `ctx`.
    fn push_to_context<R, L>(&self, ctx: &mut Context<R, L>)
        requires
            self.can_push(old(ctx).identity(), old(ctx).stash()),
        ensures
            final(ctx).stack() == old(ctx).stack().push(self.slot_in(old(ctx).stash())),
            same_heap(final(ctx), old(ctx)),
    ;
}

impl Argument for Value {
    open spec fn can_push(&self, id: u64, stash: Map<u32, SlotV>) -> bool {
        true
    }

    open spec fn slot_in(&self, stash: Map<u32, SlotV>) -> SlotV {
        slot_of(self@)
    }

    fn push_to_context<R, L>(&self, ctx: &mut Context<R, L>) {
        ctx.push_slot(self.to_slot());
    }
}

impl Argument for Reference {
    /// A handle pushes only onto the stack of the context that minted it, while its slot lives.
    open spec fn can_push(&self, id: u64, stash: Map<u32, SlotV>) -> bool {
        self.owner() == id && stash.contains_key(self.index())
    }

    open spec fn slot_in(&self, stash: Map<u32, SlotV>) -> SlotV {
        stash[self.index()]
    }

    fn push_to_context<R, L>(&self, ctx: &mut Context<R, L>) {
        ctx.push_reference(self);
    }
}

impl<R: Fn(String, String) -> String, L: Fn(String) -> Option<String>> Context<R, L> {
    /// Answers the engine's `resolve` call: the resolver maps the requested module id against
    /// the id of the requiring module, and the resolved id is pushed as the call's result.
    /// Without module callbacks there is no result.
    pub fn module_resolve_handler(&mut self, requested_id: String, parent_id: String) -> (r: bool)
        requires
            old(self).has_modules() ==> old(self).modules().0.requires((requested_id, parent_id)),
        ensures
            r == old(self).has_modules(),
            same_heap(final(self), old(self)),
            r ==> exists|id: String|
                old(self).modules().0.ensures((requested_id, parent_id), id) && final(self).stack()
                    == old(self).stack().push(SlotV::Str(id@)),
            !r ==> final(self).stack() == old(self).stack(),
    {
        let id = match &self.modules {
            Some(m) => (m.0)(requested_id, parent_id),
            None => {
                return false;
            },
        };
        self.stack.push(Slot::Str(id));
        true
    }

    /// Answers the engine's `load` call: the loader yields the source text of a resolved module
    /// id, which is pushed as the call's result; a loader without source leaves no result.
    pub fn module_load_handler(&mut self, resolved_id: String) -> (r: bool)
        requires
            old(self).has_modules() ==> old(self).modules().1.requires((resolved_id,)),
        ensures
            same_heap(final(self), old(self)),
            r ==> old(self).has_modules() && exists|src: String|
                old(self).modules().1.ensures((resolved_id,), Some(src)) && final(self).stack()
                    == old(self).stack().push(SlotV::Str(src@)),
            !r ==> final(self).stack() == old(self).stack() && (old(self).has_modules()
                ==> old(self).modules().1.ensures((resolved_id,), None)),
    {
        let source = match &self.modules {
            Some(m) => (m.1)(resolved_id),
            None => {
                return false;
            },
        };
        match source {
            Some(src) => {
                self.stack.push(Slot::Str(src));
                true
            },
            None => false,
        }
    }
}

/// The handle that an operation mints for a returned value is live in the context the operation
/// leaves and names exactly that value, so reading it back gives the value's host form.
pub proof fn lemma_settled_handle<R, L>(
    old: &Context<R, L>,
    new: &Context<R, L>,
    h: Reference,
    v: SlotV,
    text: Seq<char>,
)
    requires
        settled(old, new, &Ok(h), true, v, text),
    ensures
        new.holds(&h),
        new.stash()[h.index()] == v,
{
}

/// A handle minted by one context never pushes onto the stack of a context with another
/// identity, whatever that context's stash holds.
pub proof fn lemma_handle_isolation(r: &Reference, id: u64, stash: Map<u32, SlotV>)
    requires
        r.owner() != id,
    ensures
        !r.can_push(id, stash),
{
}

impl<R, L> Context<R, L> {
    /// Whether `r` was minted by this context and its stash slot is live.
    pub open spec fn holds(&self, r: &Reference) -> bool {
        r.owner() == self.identity() && self.stash().contains_key(r.index())
    }

    /// Whether `r` was minted by this context. A handle of another context names nothing here.
    pub fn owns(&self, r: &Reference) -> (b: bool)
        ensures
            b == (r.owner() == self.identity()),
    {
        r.ctx_id == self.id
    }

    /// Whether `r` was minted by this context and its stash slot is live.
    pub fn is_live(&self, r: &Reference) -> (b: bool)
        ensures
            b == self.holds(r),
    {
        r.ctx_id == self.id && self.stash.contains_key(&r.stash_idx)
    }

    /// Pushes a slot onto the stack.
    pub fn push_slot(&mut self, s: Slot)
        ensures
            final(self).stack() == old(self).stack().push(s@),
            same_heap(final(self), old(self)),
    {
        self.stack.push(s);
    }

    /// Allocates the next stash slot index; the counter wraps around.
    pub fn gen_stash_idx(&mut self) -> (i: u32)
        ensures
            i == old(self).counter(),
            final(self).counter() == next_counter(old(self).counter()),
            final(self).stack() == old(self).stack(),
            final(self).stash() == old(self).stash(),
            final(self).identity() == old(self).identity(),
            final(self).global() == old(self).global(),
            final(self).has_modules() == old(self).has_modules(),
    {
        let i = self.next_stash_idx;
        self.next_stash_idx = if i == u32::MAX {
            0
        } else {
            i + 1
        };
        i
    }

    /// Moves the top of the stack into a fresh stash slot and returns the handle to it.
    fn pop_reference(&mut self) -> (r: Reference)
        requires
            old(self).stack().len() > 0,
        ensures
            r.owner() == old(self).identity(),
            r.index() == old(self).counter(),
            final(self).stack() == old(self).stack().drop_last(),
            final(self).stash() == old(self).stash().insert(old(self).counter(), old(self).stack().last()),
            final(self).counter() == next_counter(old(self).counter()),
            final(self).identity() == old(self).identity(),
            final(self).global() == old(self).global(),
            final(self).has_modules() == old(self).has_modules(),
    {
        let idx = self.gen_stash_idx();
        let v = self.stack.pop();
        self.stash.insert(idx, v);
        proof {
            assert(self.stash() =~= old(self).stash().insert(idx, old(self).stack().last()));
        }
        Reference { ctx_id: self.id, stash_idx: idx }
    }

    /// Pops the thrown value on top of the stack, after reading the structured error off it.
    fn pop_error(&mut self, text: &String) -> (e: Error)
        requires
            old(self).stack().len() > 0,
            known_code(error_code_of(old(self).stack().last())),
        ensures
            e matches Error::Js { raw } && is_error_of(raw, old(self).stack().last(), text@),
            final(self).stack() == old(self).stack().drop_last(),
            same_heap(final(self), old(self)),
    {
        let top = self.stack.top() - 1;
        let raw = JsError::from_thrown(self.stack.get(top), text);
        self.stack.pop();
        Error::Js { raw }
    }

    fn pop_reference_or_error(&mut self, ok: bool, text: &String) -> (r: Result<Reference, Error>)
        requires
            old(self).stack().len() > 0,
            !ok ==> known_code(error_code_of(old(self).stack().last())),
        ensures
            final(self).stack() == old(self).stack().drop_last(),
            final(self).identity() == old(self).identity(),
            final(self).global() == old(self).global(),
            final(self).has_modules() == old(self).has_modules(),
            ok ==> (r matches Ok(h) && h.owner() == old(self).identity() && h.index() == old(
                self,
            ).counter() && final(self).stash() == old(self).stash().insert(
                old(self).counter(),
                old(self).stack().last(),
            ) && final(self).counter() == next_counter(old(self).counter())),
            !ok ==> (r matches Err(Error::Js { raw }) && is_error_of(
                raw,
                old(self).stack().last(),
                text@,
            ) && final(self).stash() == old(self).stash() && final(self).counter() == old(
                self,
            ).counter()),
    {
        if ok {
            Ok(self.pop_reference())
        } else {
            Err(self.pop_error(text))
        }
    }

    /// Pushes the value that a handle keeps alive.
    fn push_reference(&mut self, r: &Reference)
        requires
            old(self).holds(r),
        ensures
            final(self).stack() == old(self).stack().push(old(self).stash()[r.index()]),
            same_heap(final(self), old(self)),
    {
        let s = self.stash.get(&r.stash_idx).unwrap().duplicate();
        self.stack.push(s);
    }

    /// The engine's protected call: it takes the callee at `callee_pos` with everything above
    /// it, and leaves the returned or thrown value in their place. Returns whether the call
    /// succeeded and the safe string conversion of what was thrown.
    fn protected_call(&mut self, callee_pos: usize, suffix: &str, outcome: Outcome) -> (r: (
        bool,
        String,
    ))
        requires
            callee_pos < old(self).stack().len(),
            known_outcome(&outcome),
        ensures
            ({
                let callee = old(self).stack()[callee_pos as int];
                &&& final(self).stack() == old(self).stack().subrange(0, callee_pos as int).push(
                    invoked_value(callee, &outcome, suffix@),
                )
                &&& r.0 == invoked_ok(callee, &outcome)
                &&& !r.0 ==> r.1@ == invoked_text(callee, &outcome, suffix@)
            }),
            !r.0 ==> known_code(error_code_of(final(self).stack().last())),
            same_heap(final(self), old(self)),
    {
        let can_call = match self.stack.get(callee_pos) {
            Slot::LightFunc => true,
            Slot::Object(ObjectClass::Function, _) => true,
            _ => false,
        };
        let (ok, v, text) = if !can_call {
            let mut m = kind_word_of(self.stack.get(callee_pos));
            m.append(suffix);
            let props = vec![("message".to_owned(), Slot::Str(m.clone()))];
            proof {
                reveal_strlit("message");
                lemma_props_view(props@);
                assert(props_view(props@) =~= seq![("message"@, SlotV::Str(m@))]);
            }
            (false, Slot::Object(ObjectClass::Error(ERR_TYPE_ERROR), props), m)
        } else {
            match outcome {
                Outcome::Returned(v) => (true, v, String::new()),
                Outcome::Threw(v, t) => (false, v, t),
            }
        };
        self.stack.unwind_to(callee_pos);
        self.stack.push(v);
        (ok, text)
    }

    /// Pushes every argument in order.
    pub fn push_args<A: Argument>(&mut self, args: &[A])
        requires
            forall|i: int|
                0 <= i < args.len() ==> (#[trigger] args[i]).can_push(
                    old(self).identity(),
                    old(self).stash(),
                ),
        ensures
            final(self).stack() == old(self).stack() + arg_slots(args@, old(self).stash()),
            same_heap(final(self), old(self)),
    {
        let mut i: usize = 0;
        proof {
            assert(old(self).stack() + arg_slots(args@.subrange(0, 0), old(self).stash()) =~= old(
                self,
            ).stack());
        }
        while i < args.len()
            invariant
                i <= args.len(),
                forall|j: int|
                    0 <= j < args.len() ==> (#[trigger] args[j]).can_push(
                        old(self).identity(),
                        old(self).stash(),
                    ),
                self.stack() == old(self).stack() + arg_slots(
                    args@.subrange(0, i as int),
                    old(self).stash(),
                ),
                same_heap(self, old(self)),
            decreases args.len() - i,
        {
            args[i].push_to_context(self);
            proof {
                assert(old(self).stack() + arg_slots(args@.subrange(0, i + 1), old(self).stash())
                    =~= (old(self).stack() + arg_slots(args@.subrange(0, i as int), old(self).stash())).push(
                    args@[i as int].slot_in(old(self).stash()),
                ));
            }
            i += 1;
        }
        proof {
            assert(args@.subrange(0, i as int) =~= args@);
        }
    }

    /// Invokes the callee at `callee_pos` with everything above it, then mints a handle to the
    /// result or extracts the error, leaving the stack at `callee_pos`.
    fn complete_call(&mut self, callee_pos: usize, suffix: &str, outcome: Outcome) -> (r: Result<
        Reference,
        Error,
    >)
        requires
            callee_pos < old(self).stack().len(),
            known_outcome(&outcome),
        ensures
            ({
                let callee = old(self).stack()[callee_pos as int];
                let base = old(self).stack().subrange(0, callee_pos as int);
                &&& final(self).stack() == base
                &&& final(self).identity() == old(self).identity()
                &&& final(self).global() == old(self).global()
                &&& final(self).has_modules() == old(self).has_modules()
                &&& invoked_ok(callee, &outcome) ==> (r matches Ok(h) && h.owner() == old(
                    self,
                ).identity() && h.index() == old(self).counter() && final(self).stash() == old(
                    self,
                ).stash().insert(old(self).counter(), invoked_value(callee, &outcome, suffix@))
                    && final(self).counter() == next_counter(old(self).counter()))
                &&& !invoked_ok(callee, &outcome) ==> (r matches Err(Error::Js { raw })
                    && is_error_of(
                    raw,
                    invoked_value(callee, &outcome, suffix@),
                    invoked_text(callee, &outcome, suffix@),
                ) && final(self).stash() == old(self).stash() && final(self).counter() == old(
                    self,
                ).counter())
            }),
    {
        let (ok, text) = self.protected_call(callee_pos, suffix, outcome);
        let r = self.pop_reference_or_error(ok, &text);
        proof {
            assert(self.stack() =~= old(self).stack().subrange(0, callee_pos as int));
        }
        r
    }

    /// Releases a handle: its stash slot is deleted.
    pub fn release(&mut self, r: Reference)
        requires
            r.owner() == old(self).identity(),
        ensures
            final(self).stash() == old(self).stash().remove(r.index()),
            final(self).stack() == old(self).stack(),
            final(self).counter() == old(self).counter(),
            final(self).identity() == old(self).identity(),
            final(self).global() == old(self).global(),
            final(self).has_modules() == old(self).has_modules(),
    {
        self.stash.remove(&r.stash_idx);
        proof {
            assert(self.stash() =~= old(self).stash().remove(r.index()));
        }
    }
}


/// Whether property access works on a value: everything but `undefined` and `null`.
pub open spec fn object_coercible(s: SlotV) -> bool {
    !(s is Undefined) && !(s is Null)
}

/// Message of the error that reading a property of `undefined` or `null` throws.
pub open spec fn not_coercible_message() -> Seq<char> {
    "value is not object coercible"@
}

impl Reference {
    /// The value this handle keeps alive, converted to a host value.
    pub fn to_value<R, L>(&self, ctx: &mut Context<R, L>) -> (v: Value)
        requires
            old(ctx).holds(self),
        ensures
            v@ == value_of(old(ctx).stash()[self.index()]),
            well_formed(v@),
            final(ctx).stack() == old(ctx).stack(),
            same_heap(final(ctx), old(ctx)),
    {
        ctx.push_reference(self);
        let top = ctx.stack.top() - 1;
        let v = Value::from_slot(ctx.stack.get(top));
        ctx.stack.pop();
        proof {
            assert(ctx.stack() =~= old(ctx).stack());
        }
        v
    }

    /// Gets the property `name` of the value this handle keeps alive, as [`property_value`]
    /// describes; `inherited` is the engine's answer from the prototype chain, used where the
    /// value has no such own property. Reading a property of `undefined` or `null` fails with a
    /// `TypeError`.
    pub fn get<R, L>(&self, ctx: &mut Context<R, L>, name: &String, inherited: Slot) -> (r: Result<
        Reference,
        Error,
    >)
        requires
            old(ctx).holds(self),
        ensures
            ({
                let obj = old(ctx).stash()[self.index()];
                settled(
                    old(ctx),
                    final(ctx),
                    &r,
                    object_coercible(obj),
                    if object_coercible(obj) {
                        property_value(obj, name@, inherited@)
                    } else {
                        type_error(not_coercible_message())
                    },
                    not_coercible_message(),
                )
            }),
    {
        let base = ctx.stack.top();
        let guard = StackGuard::new(&ctx.stack);
        ctx.push_reference(self);
        let coercible = match ctx.stack.get(base) {
            Slot::Undefined => false,
            Slot::Null => false,
            _ => true,
        };
        let msg = "value is not object coercible".to_owned();
        let v = if coercible {
            read_property(ctx.stack.get(base), name, inherited)
        } else {
            let props = vec![("message".to_owned(), Slot::Str(msg.clone()))];
            proof {
                reveal_strlit("message");
                lemma_props_view(props@);
                assert(props_view(props@) =~= seq![("message"@, SlotV::Str(msg@))]);
            }
            Slot::Object(ObjectClass::Error(ERR_TYPE_ERROR), props)
        };
        ctx.stack.push(v);
        let r = ctx.pop_reference_or_error(coercible, &msg);
        guard.release(&mut ctx.stack);
        proof {
            assert(ctx.stack() =~= old(ctx).stack());
        }
        r
    }

    /// Builds a call frame above the stack: this handle's value (which stays put until the call
    /// completes), a copy of it as the callee, `this` where given, then the arguments.
    fn push_frame<R, L, T: Argument, A: Argument>(
        &self,
        ctx: &mut Context<R, L>,
        this: Option<&T>,
        args: &[A],
        construct: bool,
    ) -> (frame: CallFrame)
        requires
            old(ctx).holds(self),
            this matches Some(t) ==> t.can_push(old(ctx).identity(), old(ctx).stash()),
            forall|i: int|
                0 <= i < args.len() ==> (#[trigger] args[i]).can_push(
                    old(ctx).identity(),
                    old(ctx).stash(),
                ),
        ensures
            ({
                let f = old(ctx).stash()[self.index()];
                let this_slots = match this {
                    Some(t) => seq![t.slot_in(old(ctx).stash())],
                    None => Seq::empty(),
                };
                final(ctx).stack() == old(ctx).stack() + seq![f, f] + this_slots + arg_slots(
                    args@,
                    old(ctx).stash(),
                )
            }),
            frame.base() == old(ctx).stack().len(),
            frame.callee() == old(ctx).stack().len() + 1,
            frame.nargs() == args.len(),
            frame.constructs() == construct,
            same_heap(final(ctx), old(ctx)),
    {
        let base = ctx.stack.top();
        ctx.push_reference(self);
        ctx.stack.dup(base);
        let callee_pos = ctx.stack.top() - 1;
        match this {
            Some(t) => t.push_to_context(ctx),
            None => {},
        }
        ctx.push_args(args);
        proof {
            let f = old(ctx).stash()[self.index()];
            let this_slots = match this {
                Some(t) => seq![t.slot_in(old(ctx).stash())],
                None => Seq::<SlotV>::empty(),
            };
            assert(old(ctx).stack().push(f).push(f) =~= old(ctx).stack() + seq![f, f]);
            assert(match this {
                Some(t) => old(ctx).stack().push(f).push(f).push(t.slot_in(old(ctx).stash())),
                None => old(ctx).stack().push(f).push(f),
            } =~= old(ctx).stack() + seq![f, f] + this_slots);
        }
        CallFrame { base, callee_pos, nargs: args.len(), construct }
    }

    /// Builds the frame of a call of the function this handle keeps alive, without a `this`
    /// binding: the handle's value, the callee, then the arguments. The engine runs the call
    /// on that frame, and [`Context::finish_call`] takes how it ended.
    pub fn call<R, L, A: Argument>(&self, ctx: &mut Context<R, L>, args: &[A]) -> (frame: CallFrame)
        requires
            old(ctx).holds(self),
            forall|i: int|
                0 <= i < args.len() ==> (#[trigger] args[i]).can_push(
                    old(ctx).identity(),
                    old(ctx).stash(),
                ),
        ensures
            ({
                let f = old(ctx).stash()[self.index()];
                final(ctx).stack() == old(ctx).stack() + seq![f, f] + arg_slots(
                    args@,
                    old(ctx).stash(),
                )
            }),
            frame.base() == old(ctx).stack().len(),
            frame.callee() == old(ctx).stack().len() + 1,
            frame.nargs() == args.len(),
            !frame.constructs(),
            same_heap(final(ctx), old(ctx)),
    {
        let frame = self.push_frame::<R, L, Value, A>(ctx, None, args, false);
        proof {
            let f = old(ctx).stash()[self.index()];
            assert(old(ctx).stack() + seq![f, f] + Seq::<SlotV>::empty() =~= old(ctx).stack()
                + seq![f, f]);
        }
        frame
    }

    /// Builds the frame of a call with an explicit `this` binding: the handle's value, the
    /// callee, `this`, then the arguments.
    pub fn call_with_this<R, L, T: Argument, A: Argument>(
        &self,
        ctx: &mut Context<R, L>,
        this: &T,
        args: &[A],
    ) -> (frame: CallFrame)
        requires
            old(ctx).holds(self),
            this.can_push(old(ctx).identity(), old(ctx).stash()),
            forall|i: int|
                0 <= i < args.len() ==> (#[trigger] args[i]).can_push(
                    old(ctx).identity(),
                    old(ctx).stash(),
                ),
        ensures
            ({
                let f = old(ctx).stash()[self.index()];
                final(ctx).stack() == old(ctx).stack() + seq![f, f, this.slot_in(old(ctx).stash())]
                    + arg_slots(args@, old(ctx).stash())
            }),
            frame.base() == old(ctx).stack().len(),
            frame.callee() == old(ctx).stack().len() + 1,
            frame.nargs() == args.len(),
            !frame.constructs(),
            same_heap(final(ctx), old(ctx)),
    {
        let frame = self.push_frame(ctx, Some(this), args, false);
        proof {
            let f = old(ctx).stash()[self.index()];
            assert(old(ctx).stack() + seq![f, f] + seq![this.slot_in(old(ctx).stash())] =~= old(
                ctx,
            ).stack() + seq![f, f, this.slot_in(old(ctx).stash())]);
        }
        frame
    }

    /// Builds the frame of a constructor call: the handle's value, the constructor, then the
    /// arguments.
    pub fn new<R, L, A: Argument>(&self, ctx: &mut Context<R, L>, args: &[A]) -> (frame: CallFrame)
        requires
            old(ctx).holds(self),
            forall|i: int|
                0 <= i < args.len() ==> (#[trigger] args[i]).can_push(
                    old(ctx).identity(),
                    old(ctx).stash(),
                ),
        ensures
            ({
                let f = old(ctx).stash()[self.index()];
                final(ctx).stack() == old(ctx).stack() + seq![f, f] + arg_slots(
                    args@,
                    old(ctx).stash(),
                )
            }),
            frame.base() == old(ctx).stack().len(),
            frame.callee() == old(ctx).stack().len() + 1,
            frame.nargs() == args.len(),
            frame.constructs(),
            same_heap(final(ctx), old(ctx)),
    {
        let frame = self.push_frame::<R, L, Value, A>(ctx, None, args, true);
        proof {
            let f = old(ctx).stash()[self.index()];
            assert(old(ctx).stack() + seq![f, f] + Seq::<SlotV>::empty() =~= old(ctx).stack()
                + seq![f, f]);
        }
        frame
    }

    /// Builds the frame of a call of the method `name` of the value this handle keeps alive:
    /// the value, the method (found as [`property_value`] describes, with `inherited` the
    /// engine's answer from the prototype chain), the value again as `this`, then the
    /// arguments. A missing method is `undefined`, which cannot be called.
    pub fn call_method<R, L, A: Argument>(
        &self,
        ctx: &mut Context<R, L>,
        name: &String,
        args: &[A],
        inherited: Slot,
    ) -> (frame: CallFrame)
        requires
            old(ctx).holds(self),
            forall|i: int|
                0 <= i < args.len() ==> (#[trigger] args[i]).can_push(
                    old(ctx).identity(),
                    old(ctx).stash(),
                ),
        ensures
            ({
                let o = old(ctx).stash()[self.index()];
                final(ctx).stack() == old(ctx).stack() + seq![o, property_value(o, name@, inherited@), o]
                    + arg_slots(args@, old(ctx).stash())
            }),
            frame.base() == old(ctx).stack().len(),
            frame.callee() == old(ctx).stack().len() + 1,
            frame.nargs() == args.len(),
            !frame.constructs(),
            same_heap(final(ctx), old(ctx)),
    {
        let base = ctx.stack.top();
        ctx.push_reference(self);
        let callee = read_property(ctx.stack.get(base), name, inherited);
        ctx.stack.push(callee);
        let callee_pos = ctx.stack.top() - 1;
        ctx.stack.dup(base);
        ctx.push_args(args);
        proof {
            let o = old(ctx).stash()[self.index()];
            assert(old(ctx).stack().push(o).push(property_value(o, name@, inherited@)).push(o) =~= old(
                ctx,
            ).stack() + seq![o, property_value(o, name@, inherited@), o]);
        }
        CallFrame { base, callee_pos, nargs: args.len(), construct: false }
    }
}

impl Value {
    /// Copies this value into the stash of `ctx` and returns the handle to the copy.
    pub fn to_reference<R, L>(&self, ctx: &mut Context<R, L>) -> (r: Reference)
        ensures
            settled(old(ctx), final(ctx), &Ok(r), true, slot_of(self@), Seq::empty()),
    {
        ctx.push_slot(self.to_slot());
        let r = ctx.pop_reference();
        proof {
            assert(ctx.stack() =~= old(ctx).stack());
        }
        r
    }
}

impl<R, L> Context<R, L> {
    /// Takes over how an evaluation that the engine ran ended: a handle to the value it
    /// returned, or the error extracted from the value it threw. The stack is as it was.
    pub fn complete_eval(&mut self, outcome: Outcome) -> (r: Result<Reference, Error>)
        requires
            known_outcome(&outcome),
        ensures
            settled(
                old(self),
                final(self),
                &r,
                outcome is Returned,
                match outcome {
                    Outcome::Returned(v) => v@,
                    Outcome::Threw(t, _) => t@,
                },
                match outcome {
                    Outcome::Returned(_) => Seq::empty(),
                    Outcome::Threw(_, t) => t@,
                },
            ),
    {
        let (ok, v, text) = match outcome {
            Outcome::Returned(v) => (true, v, String::new()),
            Outcome::Threw(v, t) => (false, v, t),
        };
        self.stack.push(v);
        let r = self.pop_reference_or_error(ok, &text);
        proof {
            assert(self.stack() =~= old(self).stack());
        }
        r
    }

    /// Binds `value` under `name` on the global object, as an assignment to a global variable
    /// or a function declaration in script does.
    pub fn define_global(&mut self, name: String, value: Slot)
        ensures
            final(self).global() == SlotV::Object(
                ObjectClass::Plain,
                bind(old(self).global()->Object_1, name@, value@),
            ),
            final(self).stack() == old(self).stack(),
            final(self).stash() == old(self).stash(),
            final(self).counter() == old(self).counter(),
            final(self).identity() == old(self).identity(),
            final(self).has_modules() == old(self).has_modules(),
    {
        bind_property(&mut self.global, name, value);
    }

    /// A handle to the global object.
    pub fn global_object(&mut self) -> (r: Reference)
        ensures
            settled(old(self), final(self), &Ok(r), true, old(self).global(), Seq::empty()),
    {
        let g = Slot::Object(ObjectClass::Plain, duplicate_props(&self.global));
        self.stack.push(g);
        let r = self.pop_reference();
        proof {
            assert(self.stack() =~= old(self).stack());
        }
        r
    }

    /// Builds the frame of a call of the global function `name`, as a call of the method
    /// `name` of the global object: the global object, the function (with `inherited` the
    /// engine's answer from the global object's prototype chain), the global object as `this`,
    /// then the arguments.
    pub fn call_global<A: Argument>(&mut self, name: &String, args: &[A], inherited: Slot) -> (frame:
        CallFrame)
        requires
            forall|i: int|
                0 <= i < args.len() ==> (#[trigger] args[i]).can_push(
                    old(self).identity(),
                    old(self).stash(),
                ),
        ensures
            ({
                let g = old(self).global();
                final(self).stack() == old(self).stack() + seq![g, property_value(g, name@, inherited@), g]
                    + arg_slots(args@, old(self).stash())
            }),
            frame.base() == old(self).stack().len(),
            frame.callee() == old(self).stack().len() + 1,
            frame.nargs() == args.len(),
            !frame.constructs(),
            same_heap(final(self), old(self)),
    {
        let base = self.stack.top();
        let g = Slot::Object(ObjectClass::Plain, duplicate_props(&self.global));
        self.stack.push(g);
        let callee = read_property(self.stack.get(base), name, inherited);
        self.stack.push(callee);
        let callee_pos = self.stack.top() - 1;
        self.stack.dup(base);
        self.push_args(args);
        proof {
            let g = old(self).global();
            assert(old(self).stack().push(g).push(property_value(g, name@, inherited@)).push(g) =~= old(
                self,
            ).stack() + seq![g, property_value(g, name@, inherited@), g]);
        }
        CallFrame { base, callee_pos, nargs: args.len(), construct: false }
    }

    /// Finishes a call whose frame the engine ran: `outcome` is how the callee ended, and a
    /// callee that cannot be called or constructed throws a `TypeError` instead. Then a handle
    /// to the result is minted, or the error is extracted, and the frame is popped.
    pub fn finish_call(&mut self, frame: CallFrame, outcome: Outcome) -> (r: Result<Reference, Error>)
        requires
            frame.base() < frame.callee(),
            frame.callee() < old(self).stack().len(),
            known_outcome(&outcome),
        ensures
            ({
                let callee = old(self).stack()[frame.callee() as int];
                let ok = invoked_ok(callee, &outcome);
                let v = invoked_value(callee, &outcome, frame.suffix());
                &&& final(self).stack() == old(self).stack().subrange(0, frame.base() as int)
                &&& final(self).identity() == old(self).identity()
                &&& final(self).global() == old(self).global()
                &&& final(self).has_modules() == old(self).has_modules()
                &&& ok ==> (r matches Ok(h) && h.owner() == old(self).identity() && h.index()
                    == old(self).counter() && final(self).stash() == old(self).stash().insert(
                    old(self).counter(),
                    v,
                ) && final(self).counter() == next_counter(old(self).counter()))
                &&& !ok ==> (r matches Err(Error::Js { raw }) && is_error_of(
                    raw,
                    v,
                    invoked_text(callee, &outcome, frame.suffix()),
                ) && final(self).stash() == old(self).stash() && final(self).counter() == old(
                    self,
                ).counter())
            }),
    {
        let suffix = if frame.construct {
            " not constructable"
        } else {
            " not callable"
        };
        let r = self.complete_call(frame.callee_pos, suffix, outcome);
        self.stack.unwind_to(frame.base);
        proof {
            assert(self.stack() =~= old(self).stack().subrange(0, frame.base() as int));
        }
        r
    }
}

} // verus!
