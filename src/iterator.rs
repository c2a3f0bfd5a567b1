//! Adapters over iterators: converting items, and mapping the `Some`, `Ok` or
//! `Err` values of iterators of `Option` or `Result`.

use vstd::prelude::*;
use vstd::std_specs::iter::IteratorSpec;
use vstd::std_specs::convert::IntoSpec;

verus! {

/// Relies on `ExactSizeIterator::len`, which reports how many items an
/// iterator has left. Nothing is assumed of the number: the trait is safe to
/// implement, so an implementation may report it wrongly.
#[verifier::external_body]
fn items_left<Inner: ExactSizeIterator>(inner: &Inner) -> usize {
    inner.len()
}

/// An adapter that applies a function to the `Some` values of an iterator of
/// `Option<T>`, and passes `None` on unchanged.
pub struct MapOpt<I, F> {
    pub iter: I,
    pub f: F,
}

impl<I, F, T, U> MapOpt<I, F> where I: Iterator<Item = Option<T>>, F: FnMut(T) -> U {
    /// The next item: `None` once the inner iterator is done; otherwise its
    /// next item, with the function applied to a `Some` value.
    pub fn next(&mut self) -> (r: Option<Option<U>>)
        requires
            forall|t: T| old(self).f.requires((t,)),
        ensures
            final(self).f == old(self).f,
            old(self).iter.obeys_prophetic_iter_laws() ==> {
                if old(self).iter.remaining().len() > 0 {
                    &&& final(self).iter.remaining() == old(self).iter.remaining().drop_first()
                    &&& match old(self).iter.remaining()[0] {
                        Some(t) => r matches Some(Some(u)) && old(self).f.ensures((t,), u),
                        None => r == Some(None::<U>),
                    }
                } else {
                    r is None
                }
            },
    {
        match self.iter.next() {
            Some(Some(t)) => Some(Some((self.f)(t))),
            Some(None) => Some(None),
            None => None,
        }
    }
}

impl<I, F> MapOpt<I, F> where I: ExactSizeIterator {
    /// The number of items left, as the inner iterator reports it.
    pub fn len(&self) -> usize {
        items_left(&self.iter)
    }
}

/// An adapter that applies a function to the `Ok` values of an iterator of
/// `Result<T, E>`, and passes errors on unchanged.
pub struct MapRes<I, F> {
    pub iter: I,
    pub f: F,
}

impl<I, F, T, U, E> MapRes<I, F> where I: Iterator<Item = Result<T, E>>, F: FnMut(T) -> U {
    /// The next item: `None` once the inner iterator is done; otherwise its
    /// next item, with the function applied to an `Ok` value.
    pub fn next(&mut self) -> (r: Option<Result<U, E>>)
        requires
            forall|t: T| old(self).f.requires((t,)),
        ensures
            final(self).f == old(self).f,
            old(self).iter.obeys_prophetic_iter_laws() ==> {
                if old(self).iter.remaining().len() > 0 {
                    &&& final(self).iter.remaining() == old(self).iter.remaining().drop_first()
                    &&& match old(self).iter.remaining()[0] {
                        Ok(t) => r matches Some(Ok(u)) && old(self).f.ensures((t,), u),
                        Err(e) => r == Some(Err::<U, E>(e)),
                    }
                } else {
                    r is None
                }
            },
    {
        match self.iter.next() {
            Some(Ok(t)) => Some(Ok((self.f)(t))),
            Some(Err(e)) => Some(Err(e)),
            None => None,
        }
    }
}

impl<I, F> MapRes<I, F> where I: ExactSizeIterator {
    /// The number of items left, as the inner iterator reports it.
    pub fn len(&self) -> usize {
        items_left(&self.iter)
    }
}

/// An adapter that applies a function to the `Err` values of an iterator of
/// `Result<T, E>`, and passes `Ok` values on unchanged.
pub struct MapResErr<I, F> {
    pub iter: I,
    pub f: F,
}

impl<I, F, T, E, U> MapResErr<I, F> where I: Iterator<Item = Result<T, E>>, F: FnMut(E) -> U {
    /// The next item: `None` once the inner iterator is done; otherwise its
    /// next item, with the function applied to an `Err` value.
    pub fn next(&mut self) -> (r: Option<Result<T, U>>)
        requires
            forall|e: E| old(self).f.requires((e,)),
        ensures
            final(self).f == old(self).f,
            old(self).iter.obeys_prophetic_iter_laws() ==> {
                if old(self).iter.remaining().len() > 0 {
                    &&& final(self).iter.remaining() == old(self).iter.remaining().drop_first()
                    &&& match old(self).iter.remaining()[0] {
                        Ok(t) => r == Some(Ok::<T, U>(t)),
                        Err(e) => r matches Some(Err(u)) && old(self).f.ensures((e,), u),
                    }
                } else {
                    r is None
                }
            },
    {
        match self.iter.next() {
            Some(Ok(t)) => Some(Ok(t)),
            Some(Err(e)) => Some(Err((self.f)(e))),
            None => None,
        }
    }
}

impl<I, F> MapResErr<I, F> where I: ExactSizeIterator {
    /// The number of items left, as the inner iterator reports it.
    pub fn len(&self) -> usize {
        items_left(&self.iter)
    }
}

/// An adapter that converts the items of an iterator with `Into`.
pub struct MapInto<I, U> {
    pub iter: I,
    pub target: core::marker::PhantomData<U>,
}

impl<I, T, U> MapInto<I, U> where I: Iterator<Item = T>, T: Into<U> {
    /// The next item of the inner iterator, converted; `None` once it is done.
    pub fn next(&mut self) -> (r: Option<U>)
        ensures
            old(self).iter.obeys_prophetic_iter_laws() ==> {
                if old(self).iter.remaining().len() > 0 {
                    &&& final(self).iter.remaining() == old(self).iter.remaining().drop_first()
                    &&& r is Some
                    &&& T::obeys_into_spec() ==> r == Some(old(self).iter.remaining()[0].into_spec())
                } else {
                    r is None
                }
            },
    {
        match self.iter.next() {
            Some(t) => Some(t.into()),
            None => None,
        }
    }
}

impl<I, U> MapInto<I, U> where I: ExactSizeIterator {
    /// The number of items left, as the inner iterator reports it.
    pub fn len(&self) -> usize {
        items_left(&self.iter)
    }
}


/// Extensions for iterators.
pub trait IteratorExt {
    /// Converts each item with `Into`.
    fn map_into<U>(self) -> (r: MapInto<Self, U>) where
        Self: Sized,
        Self: Iterator,
        <Self as Iterator>::Item: Into<U>,
        ensures
            r.iter == self,
    ;

    /// Applies `f` to the `Some` values of an iterator of `Option<T>`.
    fn map_opt<T, U, F>(self, f: F) -> (r: MapOpt<Self, F>) where
        Self: Sized,
        Self: Iterator<Item = Option<T>>,
        F: FnMut(T) -> U,
        ensures
            r.iter == self,
            r.f == f,
    ;

    /// Applies `f` to the `Ok` values of an iterator of `Result<T, E>`.
    fn map_res<F, T, U, E>(self, f: F) -> (r: MapRes<Self, F>) where
        Self: Sized,
        Self: Iterator<Item = Result<T, E>>,
        F: FnMut(T) -> U,
        ensures
            r.iter == self,
            r.f == f,
    ;

    /// Applies `f` to the `Err` values of an iterator of `Result<T, E>`.
    fn map_res_err<F, T, U, E>(self, f: F) -> (r: MapResErr<Self, F>) where
        Self: Sized,
        Self: Iterator<Item = Result<T, E>>,
        F: FnMut(E) -> U,
        ensures
            r.iter == self,
            r.f == f,
    ;
}

impl<I> IteratorExt for I where I: Iterator {
    fn map_into<U>(self) -> (r: MapInto<Self, U>) where
        Self: Sized,
        Self: Iterator,
        <Self as Iterator>::Item: Into<U>,
    {
        MapInto { iter: self, target: core::marker::PhantomData }
    }

    fn map_opt<T, U, F>(self, f: F) -> (r: MapOpt<Self, F>) where
        Self: Sized,
        Self: Iterator<Item = Option<T>>,
        F: FnMut(T) -> U,
    {
        MapOpt { iter: self, f }
    }

    fn map_res<F, T, U, E>(self, f: F) -> (r: MapRes<Self, F>) where
        Self: Sized,
        Self: Iterator<Item = Result<T, E>>,
        F: FnMut(T) -> U,
    {
        MapRes { iter: self, f }
    }

    fn map_res_err<F, T, U, E>(self, f: F) -> (r: MapResErr<Self, F>) where
        Self: Sized,
        Self: Iterator<Item = Result<T, E>>,
        F: FnMut(E) -> U,
    {
        MapResErr { iter: self, f }
    }
}

} // verus!
