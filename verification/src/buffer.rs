//! The bytes of a memory dump, held in memory together with the name of the
//! file they came from.

use vstd::prelude::*;

verus! {

/// A dump file's name and, once loaded, its bytes.
#[derive(Debug)]
pub struct DataBuffer {
    pub filename: Option<String>,
    pub size: u64,
    pub data: Option<Vec<u8>>,
}

impl DataBuffer {
    /// The loaded bytes; no bytes when nothing is loaded.
    pub open spec fn bytes(&self) -> Seq<u8> {
        match self.data {
            Some(v) => v@,
            None => Seq::empty(),
        }
    }

    /// Whether `len` bytes (or, without a length, any suffix) can be taken at
    /// offset `paddr` of the loaded bytes.
    pub open spec fn can_slice(&self, paddr: u64, o_size: Option<u64>) -> bool {
        &&& self.data is Some
        &&& match o_size {
            Some(len) => paddr + len <= self.bytes().len(),
            None => paddr <= self.bytes().len(),
        }
    }

    /// The bytes that `get_shared_slice_from` hands out where `can_slice` holds.
    pub open spec fn slice_at(&self, paddr: u64, o_size: Option<u64>) -> Seq<u8> {
        match o_size {
            Some(len) => self.bytes().subrange(paddr as int, paddr + len),
            None => self.bytes().subrange(paddr as int, self.bytes().len() as int),
        }
    }

    /// A buffer for the dump named `ifilename`. With `loaded` bytes it holds them
    /// and their count; without, it is empty and to be filled by `load_data`.
    pub fn from_pathbuf(ifilename: String, loaded: Option<Vec<u8>>) -> (db: Self)
        ensures
            db.filename == Some(ifilename),
            db.data == loaded,
            db.size as nat == db.bytes().len(),
    {
        let size: u64 = match &loaded {
            Some(v) => v.len() as u64,
            None => 0,
        };
        DataBuffer { filename: Some(ifilename), size, data: loaded }
    }

    /// Takes the bytes read from the file this buffer names. A buffer without a
    /// file name names no file, and stays as it is.
    pub fn load_data(&mut self, bytes: Vec<u8>)
        ensures
            final(self).filename == old(self).filename,
            old(self).filename is None ==> *final(self) == *old(self),
            old(self).filename is Some ==> final(self).data == Some(bytes),
            old(self).filename is Some ==> final(self).size as nat == bytes@.len(),
    {
        if self.filename.is_some() {
            self.size = bytes.len() as u64;
            self.data = Some(bytes);
        }
    }

    /// All loaded bytes, if any are loaded.
    pub fn get_shared_buffer(&self) -> (r: Option<&[u8]>)
        ensures
            r is Some <==> self.data is Some,
            r matches Some(b) ==> b@ == self.bytes(),
    {
        match &self.data {
            Some(buffer) => Some(buffer.as_slice()),
            None => None,
        }
    }

    /// The `len` bytes at offset `paddr`, or all bytes from `paddr` on where no
    /// length is given; nothing where the loaded bytes do not reach that far.
    pub fn get_shared_slice_from(&self, paddr: u64, o_size: Option<u64>) -> (r: Option<&[u8]>)
        ensures
            r is Some <==> self.can_slice(paddr, o_size),
            r matches Some(b) ==> b@ == self.slice_at(paddr, o_size),
    {
        match &self.data {
            None => None,
            Some(buffer) => {
                let total: usize = buffer.len();
                if paddr > total as u64 {
                    return None;
                }
                let start: usize = paddr as usize;
                match o_size {
                    None => Some(vstd::slice::slice_subrange(buffer.as_slice(), start, total)),
                    Some(len) => {
                        if len > (total - start) as u64 {
                            None
                        } else {
                            let end: usize = start + len as usize;
                            Some(vstd::slice::slice_subrange(buffer.as_slice(), start, end))
                        }
                    },
                }
            },
        }
    }

    /// Reserved: loading from a borrowed byte slice is not offered, and the
    /// buffer stays as it is.
    pub fn load_data_slice(&self, _buffer: &[u8]) {
    }

    /// Reserved: loading from a borrowed vector is not offered, and the buffer
    /// stays as it is.
    pub fn load_data_vec(&self, _buffer: &Vec<u8>) {
    }

    /// Reserved: the buffer keeps no address mappings of its own, and stays as
    /// it is.
    pub fn add_vaddr_mapping(&mut self, _vaddr: u64, _paddr: u64, _size: u64)
        ensures
            *final(self) == *old(self),
    {
    }
}

} // verus!
