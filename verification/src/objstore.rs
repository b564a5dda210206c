//! The object store of the contract execution sandbox, as a safe
//! handle-indexed byte-buffer arena with length-checked accessors.

use vstd::prelude::*;

use crate::store::copy_bytes;

verus! {

/// A handle-indexed arena of byte buffers plus the return-data slot.
pub struct ObjectArena {
    objects: Vec<Vec<u8>>,
    return_data: Option<Vec<u8>>,
}

impl ObjectArena {
    /// The stored buffers.
    pub closed spec fn objects_v(self) -> Seq<Seq<u8>> {
        self.objects@.map_values(|o: Vec<u8>| o@)
    }

    /// The return-data slot.
    pub closed spec fn return_data_v(self) -> Option<Seq<u8>> {
        match self.return_data {
            Some(d) => Some(d@),
            None => None,
        }
    }

    /// An empty arena.
    pub fn new() -> (r: ObjectArena)
        ensures
            r.objects_v() == Seq::<Seq<u8>>::empty(),
            r.return_data_v() is None,
    {
        let r = ObjectArena { objects: Vec::new(), return_data: None };
        proof {
            assert(r.objects_v() =~= Seq::<Seq<u8>>::empty());
        }
        r
    }

    /// Stores the data a call hands back to its caller.
    pub fn set_return_data(&mut self, data: &Vec<u8>) -> (r: Result<
        (),
        crate::model::ContractError,
    >)
        ensures
            r is Ok,
            final(self).return_data_v() == Some(data@),
            final(self).objects_v() == old(self).objects_v(),
    {
        self.return_data = Some(copy_bytes(data));
        Ok(())
    }

    /// Puts a buffer into the arena; the result is its handle, or a negative
    /// value if the arena is full.
    pub fn put_object_bytes(&mut self, data: &Vec<u8>) -> (r: i64)
        ensures
            r >= 0 ==> final(self).objects_v() == old(self).objects_v().push(data@) && r
                == old(self).objects_v().len(),
            r < 0 ==> final(self).objects_v() == old(self).objects_v(),
            final(self).return_data_v() == old(self).return_data_v(),
    {
        if self.objects.len() as u64 >= 0x7fffffffffffffffu64 {
            return -1;
        }
        let handle = self.objects.len() as i64;
        self.objects.push(copy_bytes(data));
        proof {
            assert(self.objects_v() =~= old(self).objects_v().push(data@));
        }
        handle
    }

    /// Copies the buffer behind a handle into `data`, which must already
    /// have the exact length; the result is that length, or a negative value
    /// when the handle is unknown or the length does not match.
    pub fn get_object_bytes(&mut self, data: &mut Vec<u8>, object_index: u32) -> (r: i64)
        ensures
            final(self).objects_v() == old(self).objects_v(),
            final(self).return_data_v() == old(self).return_data_v(),
            r >= 0 <==> (object_index < old(self).objects_v().len() && old(data)@.len() == old(
                self,
            ).objects_v()[object_index as int].len() && old(data)@.len() <= 0x7fffffffffffffff),
            r >= 0 ==> final(data)@ == old(self).objects_v()[object_index as int] && r == old(
                self,
            ).objects_v()[object_index as int].len(),
            r < 0 ==> final(data)@ == old(data)@,
    {
        if (object_index as usize) >= self.objects.len() {
            return -1;
        }
        let src = &self.objects[object_index as usize];
        if data.len() != src.len() {
            return -2;
        }
        let n = src.len();
        if n as u64 > 0x7fffffffffffffffu64 {
            return -3;
        }
        let fresh = copy_bytes(src);
        *data = fresh;
        n as i64
    }

    /// The length of the buffer behind a handle, or a negative value when
    /// the handle is unknown.
    pub fn get_object_size(&self, object_index: u32) -> (r: i64)
        ensures
            r >= 0 <==> (object_index < self.objects_v().len() && self.objects_v()[object_index as int].len()
                <= 0x7fffffffffffffff),
            r >= 0 ==> r == self.objects_v()[object_index as int].len(),
    {
        if (object_index as usize) >= self.objects.len() {
            return -1;
        }
        let n = self.objects[object_index as usize].len();
        if n as u64 > 0x7fffffffffffffffu64 {
            return -2;
        }
        n as i64
    }
}

} // verus!
