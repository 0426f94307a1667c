use crate::inbox::{after_take, taken};
use crate::rt::{Runtime, RuntimeModel};
use std::marker::PhantomData;
use vstd::prelude::*;

verus! {

/// A message type with its channel number. Its values travel as the bytes
/// of their `#[repr(C)]` layout.
pub trait Channel: Copy {
    /// The number of the channel that carries this message type.
    const ID: u32;
}

/// A message type that the guest sends to the host.
pub trait Outbound: Channel {}

/// A message type that the host sends to the guest.
pub trait Inbound: Channel {}

/// A subscription to the channel of the inbound message type `T`.
pub struct Receiver<T: Inbound> {
    marker: PhantomData<T>,
}

/// A pending receive of the next message of type `T`.
pub struct Recv<T: Inbound> {
    marker: PhantomData<T>,
}

impl<T: Inbound> Receiver<T> {
    /// A receiver for the channel of `T`.
    pub fn new() -> (r: Receiver<T>) {
        Receiver { marker: PhantomData }
    }

    /// The next message on the channel of `T`, once it arrives.
    pub fn recv(&mut self) -> (r: Recv<T>)
        ensures
            *final(self) == *old(self),
    {
        Recv { marker: PhantomData }
    }
}

impl<T: Inbound> Recv<T> {
    /// Polls for the message: takes the oldest one waiting on the channel
    /// of `T`, if there is one.
    pub fn poll<U>(&self, rt: &mut Runtime<U>) -> (r: Option<Vec<u8>>)
        ensures
            r == taken(old(rt)@.inbox, T::ID),
            final(rt)@ == (RuntimeModel { inbox: after_take(old(rt)@.inbox, T::ID), ..old(rt)@ }),
    {
        rt.take(T::ID)
    }
}

/// The image of a message of `size` bytes read from `bytes`: the first
/// `size` bytes, with zeros after the end of `bytes` when it is shorter.
pub open spec fn image_of(bytes: Seq<u8>, size: nat) -> Seq<u8> {
    Seq::new(size, |i: int| if i < bytes.len() { bytes[i] } else { 0u8 })
}

/// The bytes of a message of `size` bytes read from `bytes`: as many as both
/// hold are copied, and the rest of the message is zero.
pub fn message_image(bytes: &[u8], size: usize) -> (r: Vec<u8>)
    ensures
        r@ == image_of(bytes@, size as nat),
        r@.len() == size,
        forall|i: int| 0 <= i < size && i < bytes@.len() ==> #[trigger] r@[i] == bytes@[i],
        forall|i: int| bytes@.len() <= i < size ==> #[trigger] r@[i] == 0u8,
        size == bytes@.len() ==> r@ == bytes@,
        size <= bytes@.len() ==> r@ == bytes@.take(size as int),
{
    let n = if bytes.len() < size { bytes.len() } else { size };
    let mut r: Vec<u8> = Vec::new();
    let mut i: usize = 0;
    while i < size
        invariant
            i <= size,
            n <= size,
            n <= bytes@.len(),
            n == bytes@.len() || n == size,
            r@.len() == i,
            forall|j: int| 0 <= j < i ==> r@[j] == image_of(bytes@, size as nat)[j],
            forall|j: int| 0 <= j < i && j < bytes@.len() ==> #[trigger] r@[j] == bytes@[j],
            forall|j: int| bytes@.len() <= j < i ==> #[trigger] r@[j] == 0u8,
        decreases size - i,
    {
        if i < n {
            r.push(bytes[i]);
        } else {
            r.push(0u8);
        }
        i = i + 1;
    }
    assert(r@ =~= image_of(bytes@, size as nat));
    proof {
        if size <= bytes@.len() {
            assert(r@ =~= bytes@.take(size as int));
        }
    }
    r
}

} // verus!
