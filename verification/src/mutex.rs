//! Locks, as one thread of control sees them. A lock that is taken would
//! make its caller wait for another thread: here the caller has to know that
//! the lock is free, or to ask with `try_lock`.
use vstd::prelude::*;

verus! {

/// A lock that one holder at a time can take. The value that it guards
/// goes to the holder, and comes back when the holder lets go.
pub struct SpinLock<T> {
    data: Option<T>,
}

/// What the holder of a `SpinLock` has: the guarded value.
pub struct SpinLockGuard<T> {
    data: T,
}

impl<T> SpinLock<T> {
    /// Whether the lock is taken.
    pub closed spec fn locked(&self) -> bool {
        self.data is None
    }

    /// The guarded value, while the lock is free.
    pub closed spec fn value(&self) -> T
        recommends
            !self.locked(),
    {
        self.data->0
    }

    /// A free lock that guards `data`.
    pub fn new(data: T) -> (r: Self)
        ensures
            !r.locked(),
            r.value() == data,
    {
        Self { data: Some(data) }
    }

    /// Takes the lock, which is free.
    pub fn lock(&mut self) -> (r: SpinLockGuard<T>)
        requires
            !old(self).locked(),
        ensures
            final(self).locked(),
            r.value() == old(self).value(),
    {
        match self.data.take() {
            Some(data) => SpinLockGuard { data },
            None => vstd::pervasive::unreached(),
        }
    }

    /// Takes the lock if it is free.
    pub fn try_lock(&mut self) -> (r: Option<SpinLockGuard<T>>)
        ensures
            final(self).locked(),
            old(self).locked() ==> r is None,
            !old(self).locked() ==> r is Some && r->0.value() == old(self).value(),
    {
        match self.data.take() {
            Some(data) => Some(SpinLockGuard { data }),
            None => None,
        }
    }

    /// Lets go of the lock: the value of the holder is guarded again.
    pub fn unlock(&mut self, guard: SpinLockGuard<T>)
        requires
            old(self).locked(),
        ensures
            !final(self).locked(),
            final(self).value() == guard.value(),
    {
        self.data = Some(guard.data);
    }
}

impl<T> SpinLockGuard<T> {
    /// The guarded value.
    pub closed spec fn value(&self) -> T {
        self.data
    }

    /// The guarded value.
    pub fn get(&self) -> (r: &T)
        ensures
            *r == self.value(),
    {
        &self.data
    }

    /// Replaces the guarded value.
    pub fn set(&mut self, data: T)
        ensures
            final(self).value() == data,
    {
        self.data = data;
    }
}

/// The greatest number of readers that a `RwLock` can count.
pub open spec fn max_readers() -> int {
    usize::MAX as int / 2
}

/// A lock that any number of readers can hold, or one writer. It counts its
/// readers; the writer gets the guarded value, and brings it back.
pub struct RwLock<T> {
    readers: usize,
    data: Option<T>,
}

/// What a reader of a `RwLock` holds.
pub struct RwLockReadGuard {}

/// What the writer of a `RwLock` holds: the guarded value.
pub struct RwLockWriteGuard<T> {
    data: T,
}

impl<T> RwLock<T> {
    /// The number of readers that hold the lock.
    pub closed spec fn readers(&self) -> int {
        self.readers as int
    }

    /// Whether a writer holds the lock.
    pub closed spec fn writing(&self) -> bool {
        self.data is None
    }

    /// The guarded value, while no writer holds the lock.
    pub closed spec fn value(&self) -> T
        recommends
            !self.writing(),
    {
        self.data->0
    }

    /// The invariant of the lock: a writer and readers never hold it together.
    pub open spec fn wf(&self) -> bool {
        self.writing() ==> self.readers() == 0
    }

    /// A free lock that guards `data`.
    pub fn new(data: T) -> (r: Self)
        ensures
            r.wf(),
            !r.writing(),
            r.readers() == 0,
            r.value() == data,
    {
        Self { readers: 0, data: Some(data) }
    }

    /// Takes the lock for reading. No writer holds it, and it can count one more reader.
    pub fn read(&mut self) -> (r: RwLockReadGuard)
        requires
            old(self).wf(),
            !old(self).writing(),
            old(self).readers() < max_readers(),
        ensures
            final(self).wf(),
            !final(self).writing(),
            final(self).readers() == old(self).readers() + 1,
            final(self).value() == old(self).value(),
    {
        self.readers = self.readers + 1;
        RwLockReadGuard {  }
    }

    /// Takes the lock for writing. Nobody holds it.
    pub fn write(&mut self) -> (r: RwLockWriteGuard<T>)
        requires
            old(self).wf(),
            !old(self).writing(),
            old(self).readers() == 0,
        ensures
            final(self).wf(),
            final(self).writing(),
            final(self).readers() == 0,
            r.value() == old(self).value(),
    {
        match self.data.take() {
            Some(data) => RwLockWriteGuard { data },
            None => vstd::pervasive::unreached(),
        }
    }

    /// The guarded value, for a reader.
    pub fn peek(&self, guard: &RwLockReadGuard) -> (r: &T)
        requires
            self.wf(),
            self.readers() > 0,
        ensures
            *r == self.value(),
            !self.writing(),
    {
        match &self.data {
            Some(data) => data,
            None => vstd::pervasive::unreached(),
        }
    }

    /// A reader lets go of the lock.
    pub fn release_read(&mut self, guard: RwLockReadGuard)
        requires
            old(self).wf(),
            old(self).readers() > 0,
        ensures
            final(self).wf(),
            final(self).readers() == old(self).readers() - 1,
            final(self).writing() == old(self).writing(),
            final(self).value() == old(self).value(),
    {
        self.readers = self.readers - 1;
    }

    /// The writer lets go of the lock: its value is guarded again.
    pub fn release_write(&mut self, guard: RwLockWriteGuard<T>)
        requires
            old(self).wf(),
            old(self).writing(),
        ensures
            final(self).wf(),
            !final(self).writing(),
            final(self).readers() == 0,
            final(self).value() == guard.value(),
    {
        self.data = Some(guard.data);
    }
}

impl<T> RwLockWriteGuard<T> {
    /// The guarded value.
    pub closed spec fn value(&self) -> T {
        self.data
    }

    /// The guarded value.
    pub fn get(&self) -> (r: &T)
        ensures
            *r == self.value(),
    {
        &self.data
    }

    /// Replaces the guarded value.
    pub fn set(&mut self, data: T)
        ensures
            final(self).value() == data,
    {
        self.data = data;
    }
}

} // verus!
