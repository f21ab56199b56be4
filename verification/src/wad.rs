//! The archive builder's bookkeeping: entry records with split lengths,
//! name and data lumps, and the running offset of the directory.
use vstd::prelude::*;

verus! {

/// What can go wrong while assembling an archive.
#[derive(Debug, Clone, Copy, PartialEq, Eq, Structural)]
pub enum AssetError {
    /// a name longer than the 16-bit length field can record
    NameTooLong(usize),
    /// a data blob longer than the 48-bit length field can record
    DataTooLong(usize),
}

/// The fixed-size archive header: a magic number and the entry count.
#[derive(Debug, Clone, Copy, PartialEq, Eq, Structural)]
pub struct Wad64Header {
    pub magic: u64,
    pub len: u64,
}

/// One directory entry: the name length, the data length split into its
/// high 16 and low 32 bits, and the data offset.
#[derive(Debug, Clone, Copy, PartialEq, Eq, Structural)]
pub struct Wad64Entry {
    pub name_len: u16,
    pub data_len_high: u16,
    pub data_len_low: u32,
    pub data_ptr: u64,
}

/// An archive under construction: the directory so far and the name and
/// data lumps that will follow it.
#[derive(Debug, Clone, PartialEq, Eq)]
pub struct Builder {
    /// the directory entries appended so far
    pub entries: Vec<Wad64Entry>,
    /// the entry names, in entry order
    pub name_lump: Vec<Vec<u8>>,
    /// the entry payloads, in entry order
    pub data_lump: Vec<Vec<u8>>,
    /// the byte offset past the header and the directory so far
    pub offset: u64,
}

impl Builder {
    /// An empty archive: no entries, the offset past the bare header.
    pub fn new() -> (r: Builder)
        ensures
            r.entries@.len() == 0,
            r.name_lump@.len() == 0,
            r.data_lump@.len() == 0,
            r.offset == 16,
    {
        Builder { entries: Vec::new(), name_lump: Vec::new(), data_lump: Vec::new(), offset: 16 }
    }

    /// Append one named blob: its name and data lengths are recorded in a
    /// fresh directory entry, split as the format stores them, and the
    /// name and data are kept for the lumps. A name longer than 65535
    /// bytes or a blob of 2^48 bytes or more is refused, and nothing
    /// changes.
    pub fn bundle_append(&mut self, name: Vec<u8>, data: Vec<u8>) -> (r: Result<(), AssetError>)
        requires
            old(self).offset + 16 + 0xFFFF <= u64::MAX,
        ensures
            name@.len() > 0xFFFF ==> r == Err::<(), AssetError>(
                AssetError::NameTooLong(name@.len() as usize),
            ) && *final(self) == *old(self),
            name@.len() <= 0xFFFF && data@.len() > 0xFFFFFFFFFFFF ==> r == Err::<(), AssetError>(
                AssetError::DataTooLong(data@.len() as usize),
            ) && *final(self) == *old(self),
            name@.len() <= 0xFFFF && data@.len() <= 0xFFFFFFFFFFFF ==> ({
                &&& r == Ok::<(), AssetError>(())
                &&& final(self).entries@ == old(self).entries@.push(
                    Wad64Entry {
                        name_len: name@.len() as u16,
                        data_len_high: ((data@.len() as u64) / 0x100000000) as u16,
                        data_len_low: ((data@.len() as u64) % 0x100000000) as u32,
                        data_ptr: 0,
                    },
                )
                &&& final(self).name_lump@ == old(self).name_lump@.push(name)
                &&& final(self).data_lump@ == old(self).data_lump@.push(data)
                &&& final(self).offset == old(self).offset + 16 + name@.len()
            }),
    {
        let name_len: usize = name.len();
        if name_len > 0xFFFF {
            return Err(AssetError::NameTooLong(name_len));
        }
        let name_len: u16 = name_len as u16;
        let data_len: u64 = data.len() as u64;
        if data_len > 0xFFFFFFFFFFFF {
            return Err(AssetError::DataTooLong(data_len as usize));
        }
        let data_len_high: u16 = (data_len / 0x100000000) as u16;
        let data_len_low: u32 = (data_len % 0x100000000) as u32;
        self.entries.push(
            Wad64Entry { name_len, data_len_high, data_len_low, data_ptr: 0 },
        );
        self.name_lump.push(name);
        self.data_lump.push(data);
        self.offset = self.offset + 16 + name_len as u64;
        Ok(())
    }
}

} // verus!
