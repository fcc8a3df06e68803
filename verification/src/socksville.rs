//! The virtual socket capability layer.
//!
//! A fixed, read-only virtual directory maps logical names to network
//! addresses; opening a configured name yields a handle onto a live byte
//! stream, disguised as an ordinary file so guest code using standard file
//! APIs works unmodified. The handle supports exactly reading, writing,
//! sync and a filetype query; every positional or capacity operation fails
//! with an explicit unsupported error, and the directory itself can never be
//! enumerated or altered.
//!
//! The live connection is modeled by its two byte streams. All handles that
//! share one connection serialize through a single exclusive lock, so each
//! operation here acts on the whole stream atomically; the connecting and
//! the byte transport happen outside the library.

use vstd::prelude::*;

use crate::error::CapabilityError;

verus! {

/// The file type a virtual handle reports: a stream socket, telling the
/// guest's I/O library to use stream buffering.
#[derive(Clone, Copy, PartialEq, Eq, Structural, Debug)]
pub enum FileType {
    SocketStream,
}

/// The descriptor flags a virtual handle reports.
#[derive(Clone, Copy, PartialEq, Eq, Structural, Debug)]
pub struct FdFlags {
    pub append: bool,
    pub dsync: bool,
    pub nonblock: bool,
    pub rsync: bool,
    pub sync: bool,
}

/// The stat record a virtual handle reports: a size-less socket stream with
/// no link count and no timestamps.
#[derive(Clone, Copy, PartialEq, Eq, Debug)]
pub struct FileStat {
    pub device_id: u64,
    pub inode: u64,
    pub filetype: FileType,
    pub nlink: u64,
    pub size: u64,
    pub atim: Option<u64>,
    pub mtim: Option<u64>,
    pub ctim: Option<u64>,
}

/// One virtual socket handle over a live connection, modeled by the two
/// directions of its byte stream: what the connection has made available to
/// read and what has been written to it so far.
pub struct Socksville {
    /// Bytes available to read, not yet drained.
    pub incoming: Vec<u8>,
    /// Bytes written so far, in order.
    pub outgoing: Vec<u8>,
}

/// Mathematical image of a [`Socksville`].
pub struct SocksvilleView {
    pub incoming: Seq<u8>,
    pub outgoing: Seq<u8>,
}

impl View for Socksville {
    type V = SocksvilleView;

    open spec fn view(&self) -> SocksvilleView {
        SocksvilleView { incoming: self.incoming@, outgoing: self.outgoing@ }
    }
}

/// The byte-capacity list of a buffer list, in order.
pub open spec fn buf_caps(caps: Seq<usize>) -> Seq<int> {
    caps.map_values(|c: usize| c as int)
}

/// What each buffer of a vectored read receives: the connection's available
/// bytes, dealt out in buffer order, each buffer filled up to its capacity.
pub open spec fn spec_drain_bufs(incoming: Seq<u8>, caps: Seq<int>) -> Seq<Seq<u8>>
    decreases caps.len(),
{
    if caps.len() == 0 {
        Seq::empty()
    } else {
        let n = if caps.first() <= incoming.len() as int {
            caps.first()
        } else {
            incoming.len() as int
        };
        seq![incoming.take(n)] + spec_drain_bufs(incoming.skip(n), caps.drop_first())
    }
}

/// What remains available after a vectored read has dealt bytes out to the
/// given capacities.
pub open spec fn spec_drain_rest(incoming: Seq<u8>, caps: Seq<int>) -> Seq<u8>
    decreases caps.len(),
{
    if caps.len() == 0 {
        incoming
    } else {
        let n = if caps.first() <= incoming.len() as int {
            caps.first()
        } else {
            incoming.len() as int
        };
        spec_drain_rest(incoming.skip(n), caps.drop_first())
    }
}

/// The flat concatenation of a buffer list.
pub open spec fn concat_bytes(bufs: Seq<Seq<u8>>) -> Seq<u8>
    decreases bufs.len(),
{
    if bufs.len() == 0 {
        Seq::empty()
    } else {
        concat_bytes(bufs.drop_last()) + bufs.last()
    }
}

impl Socksville {
    /// A handle over a fresh connection: nothing readable yet, nothing
    /// written yet.
    pub fn new() -> (r: Self)
        ensures
            r@.incoming == Seq::<u8>::empty(),
            r@.outgoing == Seq::<u8>::empty(),
    {
        Socksville { incoming: Vec::new(), outgoing: Vec::new() }
    }

    /// There is no durable-flush concept for a socket: succeeds, does
    /// nothing.
    pub fn datasync(&self) -> (r: Result<(), CapabilityError>)
        ensures
            r is Ok,
    {
        Ok(())
    }

    /// There is no durable-flush concept for a socket: succeeds, does
    /// nothing.
    pub fn sync(&self) -> (r: Result<(), CapabilityError>)
        ensures
            r is Ok,
    {
        Ok(())
    }

    /// Reports the stream-socket file type.
    pub fn get_filetype(&self) -> (r: Result<FileType, CapabilityError>)
        ensures
            r == Ok::<FileType, CapabilityError>(FileType::SocketStream),
    {
        Ok(FileType::SocketStream)
    }

    /// Reports append-only stream flags.
    pub fn get_fdflags(&self) -> (r: Result<FdFlags, CapabilityError>)
        ensures
            r == Ok::<FdFlags, CapabilityError>(
                (FdFlags { append: true, dsync: false, nonblock: false, rsync: false, sync: false }),
            ),
    {
        Ok(FdFlags { append: true, dsync: false, nonblock: false, rsync: false, sync: false })
    }

    /// Flags beyond the fixed append-only set cannot be set on a socket
    /// handle.
    pub fn set_fdflags(&mut self, flags: FdFlags) -> (r: Result<(), CapabilityError>)
        ensures
            final(self)@ == old(self)@,
            r == Err::<(), CapabilityError>(CapabilityError::Unsupported),
    {
        let _ = flags;
        Err(CapabilityError::Unsupported)
    }

    /// Reports a constant, size-less socket stat record.
    pub fn get_filestat(&self) -> (r: Result<FileStat, CapabilityError>)
        ensures
            r == Ok::<FileStat, CapabilityError>(
                (FileStat {
                    device_id: 0,
                    inode: 0,
                    filetype: FileType::SocketStream,
                    nlink: 0,
                    size: 0,
                    atim: None,
                    mtim: None,
                    ctim: None,
                }),
            ),
    {
        Ok(
            FileStat {
                device_id: 0,
                inode: 0,
                filetype: FileType::SocketStream,
                nlink: 0,
                size: 0,
                atim: None,
                mtim: None,
                ctim: None,
            },
        )
    }

    /// A byte stream has no explicit size.
    pub fn set_filestat_size(&self, size: u64) -> (r: Result<(), CapabilityError>)
        ensures
            r == Err::<(), CapabilityError>(CapabilityError::Unsupported),
    {
        let _ = size;
        Err(CapabilityError::Unsupported)
    }

    /// A byte stream has no offsets to advise about.
    pub fn advise(&self, offset: u64, len: u64) -> (r: Result<(), CapabilityError>)
        ensures
            r == Err::<(), CapabilityError>(CapabilityError::Unsupported),
    {
        let _ = offset;
        let _ = len;
        Err(CapabilityError::Unsupported)
    }

    /// A byte stream has no preallocated extents.
    pub fn allocate(&self, offset: u64, len: u64) -> (r: Result<(), CapabilityError>)
        ensures
            r == Err::<(), CapabilityError>(CapabilityError::Unsupported),
    {
        let _ = offset;
        let _ = len;
        Err(CapabilityError::Unsupported)
    }

    /// A socket has no timestamps to set.
    pub fn set_times(&self, atim: Option<u64>, mtim: Option<u64>) -> (r: Result<
        (),
        CapabilityError,
    >)
        ensures
            r == Err::<(), CapabilityError>(CapabilityError::Unsupported),
    {
        let _ = atim;
        let _ = mtim;
        Err(CapabilityError::Unsupported)
    }

    /// Drains available bytes into buffers of the given capacities, in
    /// order, and returns the filled buffers with the total transferred —
    /// possibly less than capacity: standard partial-read semantics.
    pub fn read_vectored(&mut self, caps: &Vec<usize>) -> (r: Result<
        (Vec<Vec<u8>>, u64),
        CapabilityError,
    >)
        ensures
            match r {
                Ok((chunks, total)) => {
                    &&& chunks.deep_view() == spec_drain_bufs(
                        old(self)@.incoming,
                        buf_caps(caps@),
                    )
                    &&& final(self)@.incoming == spec_drain_rest(old(self)@.incoming, buf_caps(caps@))
                    &&& final(self)@.outgoing == old(self)@.outgoing
                    &&& total as int == old(self)@.incoming.len() - final(self)@.incoming.len()
                },
                Err(_) => false,
            },
    {
        let ghost orig_in = self@.incoming;
        let ghost capsv = buf_caps(caps@);
        proof {
            broadcast use vstd::std_specs::vec::axiom_spec_len;

            assert(vstd::std_specs::vec::spec_vec_len(&self.incoming) == orig_in.len());
        }
        let mut chunks: Vec<Vec<u8>> = Vec::new();
        let mut total: usize = 0;
        let mut i: usize = 0;
        proof {
            assert(capsv.skip(0) =~= capsv);
            assert(chunks.deep_view() =~= Seq::<Seq<u8>>::empty());
            assert(chunks.deep_view() + spec_drain_bufs(self@.incoming, capsv) =~= spec_drain_bufs(
                orig_in,
                capsv,
            ));
        }
        while i < caps.len()
            invariant
                i <= caps.len(),
                capsv == buf_caps(caps@),
                capsv.len() == caps@.len(),
                spec_drain_bufs(orig_in, capsv) =~= chunks.deep_view() + spec_drain_bufs(
                    self@.incoming,
                    capsv.skip(i as int),
                ),
                spec_drain_rest(orig_in, capsv) == spec_drain_rest(
                    self@.incoming,
                    capsv.skip(i as int),
                ),
                chunks@.len() == i,
                orig_in.len() <= usize::MAX,
                total == orig_in.len() - self@.incoming.len(),
                self@.incoming.len() <= orig_in.len(),
                self@.outgoing == old(self)@.outgoing,
            decreases caps.len() - i,
        {
            let ghost pre_chunks = chunks.deep_view();
            let ghost pre_in = self@.incoming;
            let ghost n: int = if capsv[i as int] <= pre_in.len() as int {
                capsv[i as int]
            } else {
                pre_in.len() as int
            };
            let chunk = self.take_incoming(caps[i]);
            let ghost chunkv = chunk@;
            proof {
                assert(chunkv == pre_in.take(n));
                assert(chunkv.len() <= pre_in.len());
                assert(total + chunkv.len() <= orig_in.len());
            }
            total = total + chunk.len();
            chunks.push(chunk);
            proof {
                assert(capsv.skip(i as int).first() == capsv[i as int]);
                assert(capsv.skip(i as int).drop_first() =~= capsv.skip(i + 1));
                assert(chunks.deep_view() =~~= pre_chunks.push(chunkv));
                assert(pre_chunks.push(chunkv) =~= pre_chunks + seq![chunkv]);
                assert(spec_drain_bufs(pre_in, capsv.skip(i as int)) == seq![chunkv]
                    + spec_drain_bufs(self@.incoming, capsv.skip(i + 1)));
                assert(spec_drain_bufs(orig_in, capsv) =~= chunks.deep_view() + spec_drain_bufs(
                    self@.incoming,
                    capsv.skip(i + 1),
                ));
                assert(spec_drain_rest(pre_in, capsv.skip(i as int)) == spec_drain_rest(
                    self@.incoming,
                    capsv.skip(i + 1),
                ));
            }
            i = i + 1;
        }
        proof {
            assert(capsv.skip(capsv.len() as int) =~= Seq::<int>::empty());
            assert(spec_drain_bufs(self@.incoming, capsv.skip(capsv.len() as int))
                =~= Seq::<Seq<u8>>::empty());
            assert(chunks.deep_view() + Seq::<Seq<u8>>::empty() =~= chunks.deep_view());
        }
        Ok((chunks, total as u64))
    }

    /// Takes up to `cap` bytes off the front of the available stream.
    fn take_incoming(&mut self, cap: usize) -> (r: Vec<u8>)
        ensures
            ({
                let n = if cap as int <= old(self)@.incoming.len() as int {
                    cap as int
                } else {
                    old(self)@.incoming.len() as int
                };
                &&& r@ == old(self)@.incoming.take(n)
                &&& final(self)@.incoming == old(self)@.incoming.skip(n)
                &&& final(self)@.outgoing == old(self)@.outgoing
            }),
    {
        let n = if cap <= self.incoming.len() {
            cap
        } else {
            self.incoming.len()
        };
        let mut taken: Vec<u8> = Vec::new();
        let mut i: usize = 0;
        while i < n
            invariant
                n <= self.incoming@.len(),
                i <= n,
                taken@ =~= self.incoming@.take(i as int),
                self@ == old(self)@,
            decreases n - i,
        {
            taken.push(self.incoming[i]);
            i = i + 1;
        }
        let mut rest: Vec<u8> = Vec::new();
        let mut j: usize = n;
        while j < self.incoming.len()
            invariant
                n <= j <= self.incoming@.len(),
                rest@ =~= self.incoming@.subrange(n as int, j as int),
                self@ == old(self)@,
            decreases self.incoming@.len() - j,
        {
            rest.push(self.incoming[j]);
            j = j + 1;
        }
        proof {
            assert(rest@ =~= self.incoming@.skip(n as int));
            assert(taken@ =~= self.incoming@.take(n as int));
        }
        self.incoming = rest;
        taken
    }

    /// Writes each buffer to the connection in order, atomically under the
    /// handle's exclusive lock, and returns the total bytes written.
    pub fn write_vectored(&mut self, bufs: &Vec<Vec<u8>>) -> (r: Result<u64, CapabilityError>)
        requires
            old(self)@.outgoing.len() + concat_bytes(bufs.deep_view()).len() <= usize::MAX,
        ensures
            final(self)@.outgoing == old(self)@.outgoing + concat_bytes(bufs.deep_view()),
            final(self)@.incoming == old(self)@.incoming,
            r == Ok::<u64, CapabilityError>((concat_bytes(bufs.deep_view()).len() as u64)),
    {
        let ghost orig_out = self@.outgoing;
        let mut total: usize = 0;
        let mut i: usize = 0;
        while i < bufs.len()
            invariant
                i <= bufs.len(),
                self@.outgoing =~= orig_out + concat_bytes(bufs.deep_view().take(i as int)),
                total == concat_bytes(bufs.deep_view().take(i as int)).len(),
                self@.incoming == old(self)@.incoming,
                old(self)@.outgoing == orig_out,
                orig_out.len() + concat_bytes(bufs.deep_view()).len() <= usize::MAX,
            decreases bufs.len() - i,
        {
            proof {
                lemma_concat_bytes_prefix_len(bufs.deep_view(), i + 1);
                assert(bufs.deep_view().take(i + 1).drop_last() =~= bufs.deep_view().take(i as int));
                assert(bufs.deep_view().take(i + 1).last() == bufs.deep_view()[i as int]);
            }
            let mut k: usize = 0;
            let ghost pre_out = self@.outgoing;
            while k < bufs[i].len()
                invariant
                    i < bufs@.len(),
                    k <= bufs@[i as int]@.len(),
                    self@.outgoing =~= pre_out + bufs.deep_view()[i as int].take(k as int),
                    self@.incoming == old(self)@.incoming,
                    pre_out == orig_out + concat_bytes(bufs.deep_view().take(i as int)),
                    pre_out.len() + bufs.deep_view()[i as int].len() <= usize::MAX,
                decreases bufs@[i as int]@.len() - k,
            {
                self.outgoing.push(bufs[i][k]);
                k = k + 1;
            }
            total = total + bufs[i].len();
            proof {
                assert(bufs.deep_view()[i as int].take(bufs.deep_view()[i as int].len() as int)
                    =~= bufs.deep_view()[i as int]);
                assert(self@.outgoing =~= orig_out + concat_bytes(bufs.deep_view().take(i + 1)));
            }
            i = i + 1;
        }
        proof {
            assert(bufs.deep_view().take(bufs@.len() as int) =~= bufs.deep_view());
        }
        Ok(total as u64)
    }

    /// A byte stream cannot be read at an offset.
    pub fn read_vectored_at(&self, offset: u64) -> (r: Result<u64, CapabilityError>)
        ensures
            r == Err::<u64, CapabilityError>(CapabilityError::Unsupported),
    {
        let _ = offset;
        Err(CapabilityError::Unsupported)
    }

    /// A byte stream cannot be written at an offset.
    pub fn write_vectored_at(&self, offset: u64) -> (r: Result<u64, CapabilityError>)
        ensures
            r == Err::<u64, CapabilityError>(CapabilityError::Unsupported),
    {
        let _ = offset;
        Err(CapabilityError::Unsupported)
    }

    /// A byte stream has no seek position.
    pub fn seek(&self) -> (r: Result<u64, CapabilityError>)
        ensures
            r == Err::<u64, CapabilityError>(CapabilityError::Unsupported),
    {
        Err(CapabilityError::Unsupported)
    }

    /// Peeking is outside the restricted surface.
    pub fn peek(&self) -> (r: Result<u64, CapabilityError>)
        ensures
            r == Err::<u64, CapabilityError>(CapabilityError::Unsupported),
    {
        Err(CapabilityError::Unsupported)
    }

    /// A conservative stub, not a real poll: reports zero unconditionally,
    /// so a guest must not rely on it to avoid blocking.
    pub fn num_ready_bytes(&self) -> (r: Result<u64, CapabilityError>)
        ensures
            r == Ok::<u64, CapabilityError>(0),
    {
        Ok(0)
    }

    /// Readiness waiting is outside the restricted surface.
    pub fn readable(&self) -> (r: Result<(), CapabilityError>)
        ensures
            r == Err::<(), CapabilityError>(CapabilityError::Unsupported),
    {
        Err(CapabilityError::Unsupported)
    }

    /// Readiness waiting is outside the restricted surface.
    pub fn writable(&self) -> (r: Result<(), CapabilityError>)
        ensures
            r == Err::<(), CapabilityError>(CapabilityError::Unsupported),
    {
        Err(CapabilityError::Unsupported)
    }
}

/// The length of a concatenation of a prefix is at most the length of the
/// whole concatenation.
proof fn lemma_concat_bytes_prefix_len(bufs: Seq<Seq<u8>>, i: int)
    requires
        0 <= i <= bufs.len(),
    ensures
        concat_bytes(bufs.take(i)).len() <= concat_bytes(bufs).len(),
    decreases bufs.len() - i,
{
    if i < bufs.len() {
        lemma_concat_bytes_prefix_len(bufs, i + 1);
        assert(bufs.take(i + 1).drop_last() =~= bufs.take(i));
    } else {
        assert(bufs.take(i) =~= bufs);
    }
}

/// Serialized writes never interleave: whichever order the exclusive lock
/// grants two writers of one handle, the final stream holds the prior bytes,
/// then one payload whole, then the other payload whole — an external
/// observer reading the full stream never sees the two payloads mixed
/// byte-for-byte.
pub proof fn lemma_writes_serialized(prior: Seq<u8>, a: Seq<u8>, b: Seq<u8>, a_first: bool)
    ensures
        a_first ==> {
            let t = prior + a + b;
            &&& t.subrange(prior.len() as int, (prior.len() + a.len()) as int) == a
            &&& t.subrange(
                (prior.len() + a.len()) as int,
                (prior.len() + a.len() + b.len()) as int,
            ) == b
        },
        !a_first ==> {
            let t = prior + b + a;
            &&& t.subrange(prior.len() as int, (prior.len() + b.len()) as int) == b
            &&& t.subrange(
                (prior.len() + b.len()) as int,
                (prior.len() + b.len() + a.len()) as int,
            ) == a
        },
{
    if a_first {
        let t = prior + a + b;
        assert(t.subrange(prior.len() as int, (prior.len() + a.len()) as int) =~= a);
        assert(t.subrange(
            (prior.len() + a.len()) as int,
            (prior.len() + a.len() + b.len()) as int,
        ) =~= b);
    } else {
        let t = prior + b + a;
        assert(t.subrange(prior.len() as int, (prior.len() + b.len()) as int) =~= b);
        assert(t.subrange(
            (prior.len() + b.len()) as int,
            (prior.len() + b.len() + a.len()) as int,
        ) =~= a);
    }
}

/// The fixed, read-only virtual directory: an immutable mapping from logical
/// name to network address, fixed at construction by the host, never mutated
/// by guest operations.
pub struct SocksvillePlusPlus {
    name_to_addr: vstd::hash_map::StringHashMap<String>,
}

impl View for SocksvillePlusPlus {
    type V = Map<Seq<char>, Seq<char>>;

    closed spec fn view(&self) -> Map<Seq<char>, Seq<char>> {
        Map::new(
            |k: Seq<char>| self.name_to_addr@.contains_key(k),
            |k: Seq<char>| self.name_to_addr@[k]@,
        )
    }
}

/// A directory-level operation other than opening a file by name.
#[derive(Clone, Copy, PartialEq, Eq, Structural, Debug)]
pub enum DirOp {
    OpenDir,
    CreateDir,
    Readdir,
    Symlink,
    RemoveDir,
    UnlinkFile,
    ReadLink,
    GetFilestat,
    GetPathFilestat,
    Rename,
    HardLink,
    SetTimes,
}

impl SocksvillePlusPlus {
    /// A table holding exactly one name-to-address entry.
    pub fn single(name: String, addr: String) -> (r: Self)
        ensures
            r@ == Map::<Seq<char>, Seq<char>>::empty().insert(name@, addr@),
    {
        let mut m = vstd::hash_map::StringHashMap::new();
        let ghost nv = name@;
        let ghost av = addr@;
        m.insert(name, addr);
        let r = SocksvillePlusPlus { name_to_addr: m };
        proof {
            assert(r@ =~= Map::<Seq<char>, Seq<char>>::empty().insert(nv, av));
        }
        r
    }

    /// Resolves an open-by-name request: a configured name yields the
    /// address to connect to; any other name fails exactly as a missing
    /// filesystem entry would, so a guest can neither probe nor enumerate
    /// the table beyond names it already knows.
    pub fn open_file(&self, path: &String) -> (r: Result<String, CapabilityError>)
        ensures
            match r {
                Ok(addr) => self@.contains_key(path@) && addr@ == self@[path@],
                Err(e) => !self@.contains_key(path@) && (e matches CapabilityError::NotFound(n)
                    && n@ == path@),
            },
    {
        match self.name_to_addr.get(path.as_str()) {
            Some(addr) => Ok(addr.clone()),
            None => Err(CapabilityError::NotFound(path.clone())),
        }
    }

    /// Every directory-level operation besides open fails explicitly: the
    /// namespace is read-only and fixed at host-configuration time.
    pub fn dir_op(&self, op: DirOp) -> (r: Result<(), CapabilityError>)
        ensures
            r == Err::<(), CapabilityError>(CapabilityError::Unsupported),
    {
        let _ = op;
        Err(CapabilityError::Unsupported)
    }
}

} // verus!
