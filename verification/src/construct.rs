//! How the pool obtains new values: the three construction strategies, and the
//! caller's functions behind them.
//!
//! The pool never looks inside a value. The functions that make and reset values
//! are the caller's; the pool keeps them and calls them. What a contract of the
//! pool says of a new value is what the caller's function promises of its
//! result.

use vstd::prelude::*;

verus! {
/// A function without arguments that can be kept and called later.
pub trait Make<R>: Send + Sync {
    /// The function can be called.
    spec fn ready(&self) -> bool;

    /// `r` is a value that the function may return.
    spec fn makes(&self, r: R) -> bool;

    /// Calls the function.
    fn make(&self) -> (r: R)
        requires
            self.ready(),
        ensures
            self.makes(r),
    ;
}

impl<R, F: Fn() -> R + Send + Sync> Make<R> for F {
    open spec fn ready(&self) -> bool {
        call_requires(*self, ())
    }

    open spec fn makes(&self, r: R) -> bool {
        call_ensures(*self, (), r)
    }

    fn make(&self) -> (r: R) {
        self()
    }
}

/// A function that fills in a heap placeholder and gives it back.
pub trait Pack<T>: Send + Sync {
    /// The function can be called on `placeholder`.
    spec fn ready(&self, placeholder: Box<T>) -> bool;

    /// `r` is a value that the function may return for `placeholder`.
    spec fn packs(&self, placeholder: Box<T>, r: Box<T>) -> bool;

    /// Calls the function.
    fn pack(&self, placeholder: Box<T>) -> (r: Box<T>)
        requires
            self.ready(placeholder),
        ensures
            self.packs(placeholder, r),
    ;
}

impl<T, F: Fn(Box<T>) -> Box<T> + Send + Sync> Pack<T> for F {
    open spec fn ready(&self, placeholder: Box<T>) -> bool {
        call_requires(*self, (placeholder,))
    }

    open spec fn packs(&self, placeholder: Box<T>, r: Box<T>) -> bool {
        call_ensures(*self, (placeholder,), r)
    }

    fn pack(&self, placeholder: Box<T>) -> (r: Box<T>) {
        self(placeholder)
    }
}

/// A function that cleans a value before it goes back into the pool.
pub trait Reset<T>: Send + Sync {
    /// The function can be called on every value.
    spec fn ready(&self) -> bool;

    /// Calls the function on `val`: the value is afterwards what one call of
    /// the function, begun on the value as it was, has left in it.
    fn reset(&self, val: &mut T)
        requires
            self.ready(),
        ensures
            exists|done: &mut T|
                *done == *old(val) && *final(done) == *final(val) && #[trigger] self.resets(done),
    ;

    /// `val` is a borrow that one call of the function may have had: the value
    /// that it ends with is one that the function may leave for the value that it
    /// began with.
    spec fn resets(&self, val: &mut T) -> bool;
}

impl<T, F: Fn(&mut T) + Send + Sync> Reset<T> for F {
    open spec fn ready(&self) -> bool {
        forall|val: &mut T| #[trigger] call_requires(*self, (val,))
    }

    fn reset(&self, val: &mut T) {
        self(val);
        proof {
            let done = choose|done: &mut T|
                *done == *old(val) && *final(done) == *val && #[trigger] call_ensures(
                    *self,
                    (done,),
                    (),
                );
            assert(self.resets(done));
        }
    }

    open spec fn resets(&self, val: &mut T) -> bool {
        call_ensures(*self, (val,), ())
    }
}

/// A function that cleans a value, kept by a pool.
#[verifier::reject_recursive_types(T)]
pub struct ResetHook<T> {
    handle: Box<dyn Reset<T>>,
}

impl<T> ResetHook<T> {
    /// The function can be called on every value.
    pub closed spec fn ready(&self) -> bool {
        self.handle.ready()
    }

    /// Keeps `handle`: the hook cleans as `handle` does.
    pub fn keep<F: Fn(&mut T) + Send + Sync + 'static>(handle: F) -> (r: Self)
        requires
            forall|val: &mut T| #[trigger] call_requires(handle, (val,)),
        ensures
            r.ready(),
            forall|val: &mut T| #[trigger] r.resets(val) <==> call_ensures(handle, (val,), ()),
    {
        ResetHook { handle: Box::new(handle) }
    }

    /// Cleans `val`: the value is afterwards what one call of the kept function,
    /// begun on the value as it was, has left in it.
    pub fn apply(&self, val: &mut T)
        requires
            self.ready(),
        ensures
            exists|done: &mut T|
                *done == *old(val) && *final(done) == *final(val) && #[trigger] self.resets(done),
    {
        self.handle.reset(val);
        proof {
            let done = choose|done: &mut T|
                *done == *old(val) && *final(done) == *val && #[trigger] self.handle.resets(done);
            assert(self.resets(done));
        }
    }

    /// `val` is a borrow that one call of the kept function may have had: the
    /// value that it ends with is one that the function may leave for the value
    /// that it began with.
    pub closed spec fn resets(&self, val: &mut T) -> bool {
        self.handle.resets(val)
    }
}

/// The strategy by which a pool makes a new value.
#[verifier::reject_recursive_types(T)]
pub enum ElemBuilder<T> {
    /// The type's own default value, placed on the heap.
    Default(Box<dyn Make<Box<T>>>),
    /// The value that the caller's constructor returns, moved to the heap.
    Builder(Box<dyn Make<T>>),
    /// A heap placeholder from the first function, filled in by the second. The
    /// value is never held on the stack.
    Packer(Box<dyn Make<Box<T>>>, Box<dyn Pack<T>>),
}

impl<T> ElemBuilder<T> {
    /// The functions of the strategy can be called: the one that makes a value
    /// or a placeholder always, the one that fills a placeholder in on every
    /// placeholder that the first may return.
    pub open spec fn wf(&self) -> bool {
        match self {
            ElemBuilder::Default(make) => make.ready(),
            ElemBuilder::Builder(make) => make.ready(),
            ElemBuilder::Packer(place, pack) => {
                &&& place.ready()
                &&& forall|placeholder: Box<T>| #[trigger]
                    place.makes(placeholder) ==> pack.ready(placeholder)
            },
        }
    }

    /// `r` is a value that the strategy may make.
    pub open spec fn makes(&self, r: Box<T>) -> bool {
        match self {
            ElemBuilder::Default(make) => make.makes(r),
            ElemBuilder::Builder(make) => make.makes(*r),
            ElemBuilder::Packer(place, pack) => exists|placeholder: Box<T>| #[trigger]
                place.makes(placeholder) && pack.packs(placeholder, r),
        }
    }
}

/// The strategy is the default strategy, and what it makes is a default value
/// of `T`.
pub open spec fn made_by_default<T: Default>(strategy: ElemBuilder<T>) -> bool {
    strategy is Default && forall|val: Box<T>| #[trigger]
        strategy.makes(val) ==> call_ensures(T::default, (), *val)
}

/// The strategy is the builder strategy, and it makes what `builder` returns.
pub open spec fn built_by<T, F: Fn() -> T>(strategy: ElemBuilder<T>, builder: F) -> bool {
    strategy matches ElemBuilder::Builder(make) && forall|val: T|
        make.makes(val) <==> call_ensures(builder, (), val)
}

/// The strategy is the packer strategy, and it makes what `packer` returns for
/// the placeholders of `placer`.
pub open spec fn packed_by<T, P: Fn() -> Box<T>, F: Fn(Box<T>) -> Box<T>>(
    strategy: ElemBuilder<T>,
    placer: P,
    packer: F,
) -> bool {
    strategy matches ElemBuilder::Packer(place, pack) && (forall|placeholder: Box<T>|
        place.makes(placeholder) <==> call_ensures(placer, (), placeholder)) && (forall|
        placeholder: Box<T>,
        val: Box<T>,
    |
        pack.packs(placeholder, val) <==> call_ensures(packer, (placeholder,), val))
}

impl<T> ElemBuilder<T> {
    /// The strategy that takes its values, already on the heap, from `make`.
    pub fn by_default<F: Fn() -> Box<T> + Send + Sync + 'static>(make: F) -> (r: Self)
        requires
            call_requires(make, ()),
        ensures
            r.wf(),
            r is Default,
            forall|val: Box<T>| r.makes(val) <==> call_ensures(make, (), val),
    {
        ElemBuilder::Default(Box::new(make))
    }

    /// The strategy that moves what `builder` returns to the heap.
    pub fn by_builder<F: Fn() -> T + Send + Sync + 'static>(builder: F) -> (r: Self)
        requires
            call_requires(builder, ()),
        ensures
            r.wf(),
            built_by(r, builder),
    {
        ElemBuilder::Builder(Box::new(builder))
    }

    /// The strategy that has `packer` fill in the placeholders of `placer`.
    pub fn by_packer<
        P: Fn() -> Box<T> + Send + Sync + 'static,
        F: Fn(Box<T>) -> Box<T> + Send + Sync + 'static,
    >(placer: P, packer: F) -> (r: Self)
        requires
            call_requires(placer, ()),
            forall|placeholder: Box<T>|
                call_ensures(placer, (), placeholder) ==> call_requires(packer, (placeholder,)),
        ensures
            r.wf(),
            packed_by(r, placer, packer),
    {
        ElemBuilder::Packer(Box::new(placer), Box::new(packer))
    }
}

/// Makes one new value by the given strategy.
pub fn make_elem<T>(builder: &ElemBuilder<T>) -> (r: Box<T>)
    requires
        builder.wf(),
    ensures
        builder.makes(r),
{
    match builder {
        ElemBuilder::Default(make) => make.make(),
        ElemBuilder::Builder(make) => Box::new(make.make()),
        ElemBuilder::Packer(place, pack) => {
            let placeholder = place.make();
            pack.pack(placeholder)
        },
    }
}

/// The default value of `T`, on the heap.
pub fn default_box<T: Default>() -> (r: Box<T>)
    ensures
        call_ensures(T::default, (), *r),
{
    Box::new(T::default())
}

/// Builds a value in place: takes a heap placeholder from `placer` and hands it
/// to `packer`, which fills in every field and gives it back.
pub fn make_box<T, P: Fn() -> Box<T>, F: Fn(Box<T>) -> Box<T>>(placer: P, packer: F) -> (r: Box<T>)
    requires
        call_requires(placer, ()),
        forall|placeholder: Box<T>|
            call_ensures(placer, (), placeholder) ==> call_requires(packer, (placeholder,)),
    ensures
        exists|placeholder: Box<T>|
            call_ensures(placer, (), placeholder) && call_ensures(packer, (placeholder,), r),
{
    let placeholder = placer();
    packer(placeholder)
}
} // verus!
