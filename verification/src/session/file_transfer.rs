use vstd::prelude::*;
use std::collections::BTreeMap;
use vstd::set_lib::{lemma_int_range, lemma_len_subset, set_int_range};
use crate::btree_keys::sorted_keys;
use crate::clock::unix_millis;
use crate::keymap::KeyMap;

verus! {

/// 64KB chunks
pub const MAX_FILE_CHUNK_SIZE: usize = 65536;

/// 4GB limit
pub const MAX_TRANSFER_SIZE: u64 = 4294967296;

/// 50MB auto-accept max
pub const MAX_AUTO_ACCEPT_SIZE: u64 = 52428800;

/// Where a transfer stands.
#[derive(Debug, Clone, PartialEq, Eq)]
pub enum TransferState {
    /// Awaiting user approval on the receiver side
    Pending,
    /// Transfer is actively running
    Active,
    /// Transfer completed successfully
    Completed,
    /// Transfer was rejected or cancelled
    Cancelled,
    /// Transfer failed with an error
    Failed(String),
}

/// Chunk at offset `k` covers byte position `p`.
pub open spec fn covers(m: Map<u64, Vec<u8>>, k: u64, p: int) -> bool {
    &&& m.contains_key(k)
    &&& k <= p < k + m[k]@.len()
}

/// The byte positions that the received chunks cover.
pub open spec fn covered(m: Map<u64, Vec<u8>>) -> Set<int> {
    Set::new(|p: int| exists|k: u64| #[trigger] covers(m, k, p))
}

/// Every chunk lies inside the file.
pub open spec fn chunks_within(m: Map<u64, Vec<u8>>, size: u64) -> bool {
    forall|k: u64| #[trigger] m.contains_key(k) ==> k + m[k]@.len() <= size
}

/// Two chunks overlap when each starts before the other ends.
pub open spec fn overlaps(a: u64, alen: int, b: u64, blen: int) -> bool {
    a < b + blen && b < a + alen
}

/// No two received chunks overlap.
pub open spec fn chunks_disjoint(m: Map<u64, Vec<u8>>) -> bool {
    forall|a: u64, b: u64| #[trigger] m.contains_key(a) && #[trigger] m.contains_key(b) && a != b
        ==> !overlaps(a, m[a]@.len() as int, b, m[b]@.len() as int)
}

/// The byte at position `p` of the reassembled file: that of the chunk
/// covering it, zero where no chunk does.
pub open spec fn byte_at(m: Map<u64, Vec<u8>>, p: int) -> u8 {
    if exists|k: u64| #[trigger] covers(m, k, p) {
        let k = choose|k: u64| #[trigger] covers(m, k, p);
        m[k]@[p - k]
    } else {
        0
    }
}

/// The reassembled file.
pub open spec fn assembled(m: Map<u64, Vec<u8>>, size: nat) -> Seq<u8> {
    Seq::new(size, |p: int| byte_at(m, p))
}

proof fn lemma_covered_insert(m: Map<u64, Vec<u8>>, off: u64, data: Vec<u8>)
    requires
        !m.contains_key(off),
        forall|k: u64| #[trigger] m.contains_key(k) ==> !overlaps(off, data@.len() as int, k, m[k]@.len() as int),
    ensures
        covered(m.insert(off, data)) == covered(m) + set_int_range(off as int, off + data@.len()),
        covered(m).disjoint(set_int_range(off as int, off + data@.len())),
{
    let m2 = m.insert(off, data);
    let r = set_int_range(off as int, off + data@.len());
    assert forall|p: int| #[trigger] covered(m2).contains(p) <==> covered(m).contains(p) || r.contains(p) by {
        if covered(m2).contains(p) {
            let k = choose|k: u64| #[trigger] covers(m2, k, p);
            if k != off {
                assert(covers(m, k, p));
            }
        }
        if covered(m).contains(p) {
            let k = choose|k: u64| #[trigger] covers(m, k, p);
            assert(covers(m2, k, p));
        }
        if r.contains(p) {
            assert(covers(m2, off, p));
        }
    }
    assert(covered(m2) =~= covered(m) + r);
    assert forall|p: int| !(covered(m).contains(p) && r.contains(p)) by {
        if covered(m).contains(p) && r.contains(p) {
            let k = choose|k: u64| #[trigger] covers(m, k, p);
            assert(overlaps(off, data@.len() as int, k, m[k]@.len() as int));
        }
    }
}

proof fn lemma_covered_within(m: Map<u64, Vec<u8>>, size: u64)
    requires
        chunks_within(m, size),
    ensures
        covered(m).subset_of(set_int_range(0, size as int)),
{
}

proof fn lemma_byte_at(m: Map<u64, Vec<u8>>, k: u64, p: int)
    requires
        chunks_disjoint(m),
        covers(m, k, p),
    ensures
        byte_at(m, p) == m[k]@[p - k],
{
    let j = choose|j: u64| #[trigger] covers(m, j, p);
    if j != k {
        assert(overlaps(j, m[j]@.len() as int, k, m[k]@.len() as int));
    }
}

/// One file being sent or received.
#[derive(Debug)]
pub struct FileTransfer {
    pub file_id: [u8; 16],
    pub file_name: String,
    pub file_size: u64,
    pub bytes_transferred: u64,
    pub is_sender: bool,
    pub state: TransferState,
    /// When the transfer was created (milliseconds since the Unix epoch).
    pub started_at: u64,
    /// Received chunks indexed by their byte offset for out-of-order reassembly
    pub received_chunks: BTreeMap<u64, Vec<u8>>,
}

impl FileTransfer {
    /// The invariant of a transfer: its chunks lie inside the file and do
    /// not overlap, and the byte count is the number of bytes they cover.
    pub open spec fn wf(&self) -> bool {
        &&& chunks_within(self.received_chunks@, self.file_size)
        &&& chunks_disjoint(self.received_chunks@)
        &&& covered(self.received_chunks@).finite()
        &&& self.bytes_transferred == covered(self.received_chunks@).len()
    }

    /// A transfer we send; it starts active.
    pub fn new_outgoing(file_id: [u8; 16], file_name: String, file_size: u64) -> (t: Self)
        ensures
            t.wf(),
            t.file_id == file_id,
            t.file_name == file_name,
            t.file_size == file_size,
            t.bytes_transferred == 0,
            t.is_sender,
            t.state == TransferState::Active,
            t.received_chunks@ == Map::<u64, Vec<u8>>::empty(),
    {
        let t = FileTransfer {
            file_id,
            file_name,
            file_size,
            bytes_transferred: 0,
            is_sender: true,
            state: TransferState::Active,
            started_at: unix_millis(),
            received_chunks: BTreeMap::new(),
        };
        proof {
            assert(covered(t.received_chunks@) =~= Set::<int>::empty());
        }
        t
    }

    /// A transfer offered to us. Files over 4GB are refused; files up to
    /// 50MB start active, larger ones wait for the user's approval.
    pub fn new_incoming(file_id: [u8; 16], file_name: String, file_size: u64) -> (r: Result<Self, &'static str>)
        ensures
            file_size > MAX_TRANSFER_SIZE ==> r == Err::<Self, &'static str>("File exceeds maximum allowed transfer size (4GB)"),
            file_size <= MAX_TRANSFER_SIZE ==> (r matches Ok(t) && {
                &&& t.wf()
                &&& t.file_id == file_id
                &&& t.file_name == file_name
                &&& t.file_size == file_size
                &&& t.bytes_transferred == 0
                &&& !t.is_sender
                &&& t.state == if file_size <= MAX_AUTO_ACCEPT_SIZE { TransferState::Active } else { TransferState::Pending }
                &&& t.received_chunks@ == Map::<u64, Vec<u8>>::empty()
            }),
    {
        if file_size > MAX_TRANSFER_SIZE {
            return Err("File exceeds maximum allowed transfer size (4GB)");
        }
        let initial_state = if file_size <= MAX_AUTO_ACCEPT_SIZE {
            TransferState::Active
        } else {
            TransferState::Pending
        };
        let t = FileTransfer {
            file_id,
            file_name,
            file_size,
            bytes_transferred: 0,
            is_sender: false,
            state: initial_state,
            started_at: unix_millis(),
            received_chunks: BTreeMap::new(),
        };
        proof {
            assert(covered(t.received_chunks@) =~= Set::<int>::empty());
        }
        Ok(t)
    }

    /// The user approves a pending incoming transfer.
    pub fn accept(&mut self) -> (r: Result<(), &'static str>)
        ensures
            r is Ok <==> (old(self).state is Pending && !old(self).is_sender),
            r is Ok ==> final(self).state == TransferState::Active,
            r is Err ==> r == Err::<(), &'static str>("Transfer cannot be accepted in its current state")
                && final(self).state == old(self).state,
            final(self).received_chunks@ == old(self).received_chunks@,
            final(self).bytes_transferred == old(self).bytes_transferred,
            final(self).file_size == old(self).file_size,
            final(self).file_id == old(self).file_id,
            final(self).is_sender == old(self).is_sender,
            final(self).file_name == old(self).file_name,
            final(self).started_at == old(self).started_at,
    {
        let pending = match self.state {
            TransferState::Pending => true,
            _ => false,
        };
        if pending && !self.is_sender {
            self.state = TransferState::Active;
            Ok(())
        } else {
            Err("Transfer cannot be accepted in its current state")
        }
    }

    /// Rejects or abandons the transfer.
    pub fn cancel(&mut self)
        ensures
            final(self).state == TransferState::Cancelled,
            final(self).received_chunks@ == old(self).received_chunks@,
            final(self).bytes_transferred == old(self).bytes_transferred,
            final(self).file_size == old(self).file_size,
            final(self).file_id == old(self).file_id,
            final(self).is_sender == old(self).is_sender,
            final(self).file_name == old(self).file_name,
            final(self).started_at == old(self).started_at,
    {
        self.state = TransferState::Cancelled;
    }

    /// Ingests an incoming chunk into the ordered reassembly buffer.
    ///
    /// Refused when the transfer is not active, when the chunk reaches past
    /// the end of the file, or when it overlaps a chunk already held; a
    /// second chunk at an offset already held is ignored. The transfer
    /// completes when the chunks cover the whole file.
    pub fn receive_chunk(&mut self, offset: u64, data: Vec<u8>) -> (r: Result<(), &'static str>)
        requires
            old(self).wf(),
        ensures
            final(self).wf(),
            final(self).file_size == old(self).file_size,
            final(self).file_id == old(self).file_id,
            final(self).is_sender == old(self).is_sender,
            ({
                let m = old(self).received_chunks@;
                let active = old(self).state is Active;
                let fits = offset + data@.len() <= old(self).file_size;
                let dup = m.contains_key(offset);
                let clash = exists|k: u64| #[trigger] m.contains_key(k) && overlaps(offset, data@.len() as int, k, m[k]@.len() as int);
                let unchanged = final(self).received_chunks@ == m && final(self).bytes_transferred == old(self).bytes_transferred
                    && final(self).state == old(self).state;
                &&& !active ==> r == Err::<(), &'static str>("Transfer is not active") && unchanged
                &&& active && !fits ==> r == Err::<(), &'static str>("Chunk exceeds file boundary") && unchanged
                &&& active && fits && dup ==> r is Ok && unchanged
                &&& active && fits && !dup && clash ==> r == Err::<(), &'static str>("Overlapping chunk detected") && unchanged
                &&& active && fits && !dup && !clash ==> r is Ok
                    && final(self).received_chunks@ == m.insert(offset, data)
                    && final(self).bytes_transferred == old(self).bytes_transferred + data@.len()
                    && final(self).state == if final(self).bytes_transferred == old(self).file_size { TransferState::Completed } else { TransferState::Active }
            }),
    {
        let active = match self.state {
            TransferState::Active => true,
            _ => false,
        };
        if !active {
            return Err("Transfer is not active");
        }
        let chunk_size = data.len() as u64;
        match offset.checked_add(chunk_size) {
            Some(end) => {
                if end > self.file_size {
                    return Err("Chunk exceeds file boundary");
                }
            },
            None => {
                return Err("Chunk exceeds file boundary");
            },
        }
        if self.received_chunks.contains_key(&offset) {
            return Ok(());
        }
        let ghost m = self.received_chunks@;
        let ks = sorted_keys(&self.received_chunks);
        let mut i: usize = 0;
        while i < ks.len()
            invariant
                i <= ks@.len(),
                ks@.to_set() == m.dom(),
                m == self.received_chunks@,
                *self == *old(self),
                old(self).wf(),
                old(self).state is Active,
                !m.contains_key(offset),
                chunks_within(m, self.file_size),
                offset + chunk_size <= self.file_size,
                chunk_size == data@.len(),
                forall|a: int| 0 <= a < i ==> !overlaps(offset, chunk_size as int, #[trigger] ks@[a], m[ks@[a]]@.len() as int),
            decreases ks@.len() - i,
        {
            let e_offset = ks[i];
            proof {
                assert(ks@.to_set().contains(e_offset));
            }
            let e_size = match self.received_chunks.get(&e_offset) {
                Some(chunk) => chunk.len() as u64,
                None => 0,
            };
            if offset < e_offset + e_size && e_offset < offset + chunk_size {
                proof {
                    assert(m.contains_key(e_offset) && overlaps(offset, data@.len() as int, e_offset, m[e_offset]@.len() as int));
                }
                return Err("Overlapping chunk detected");
            }
            i = i + 1;
        }
        proof {
            assert forall|k: u64| #[trigger] m.contains_key(k) implies !overlaps(offset, data@.len() as int, k, m[k]@.len() as int) by {
                assert(ks@.to_set().contains(k));
                let a = choose|a: int| 0 <= a < ks@.len() && ks@[a] == k;
                assert(!overlaps(offset, chunk_size as int, ks@[a], m[ks@[a]]@.len() as int));
            }
            lemma_covered_insert(m, offset, data);
            lemma_int_range(offset as int, offset + data@.len());
            vstd::set_lib::lemma_set_disjoint_lens(covered(m), set_int_range(offset as int, offset + data@.len()));
            let m2 = m.insert(offset, data);
            assert(chunks_within(m2, self.file_size));
            lemma_covered_within(m2, self.file_size);
            lemma_int_range(0, self.file_size as int);
            lemma_len_subset(covered(m2), set_int_range(0, self.file_size as int));
            assert forall|a: u64, b: u64| #[trigger] m2.contains_key(a) && #[trigger] m2.contains_key(b) && a != b
                implies !overlaps(a, m2[a]@.len() as int, b, m2[b]@.len() as int) by {
                if a != offset && b != offset {
                    assert(m.contains_key(a) && m.contains_key(b));
                } else if a == offset {
                    assert(m.contains_key(b));
                } else {
                    assert(m.contains_key(a));
                }
            }
        }
        self.received_chunks.insert(offset, data);
        self.bytes_transferred = self.bytes_transferred + chunk_size;
        if self.bytes_transferred == self.file_size {
            self.state = TransferState::Completed;
        }
        Ok(())
    }

    /// The file's bytes once the transfer has completed: each chunk at its
    /// offset, zero where no chunk landed; `None` before completion.
    pub fn assemble(&self) -> (r: Option<Vec<u8>>)
        requires
            self.wf(),
            self.file_size <= usize::MAX,
        ensures
            !(self.state is Completed) ==> r is None,
            self.state is Completed ==> (r matches Some(v) && v@ == assembled(self.received_chunks@, self.file_size as nat)),
    {
        let completed = match self.state {
            TransferState::Completed => true,
            _ => false,
        };
        if !completed {
            return None;
        }
        let ghost m = self.received_chunks@;
        let size = self.file_size as usize;
        let mut result: Vec<u8> = Vec::new();
        let mut z: usize = 0;
        while z < size
            invariant
                z <= size,
                result@.len() == z,
                forall|p: int| 0 <= p < z ==> result@[p] == 0,
            decreases size - z,
        {
            result.push(0u8);
            z = z + 1;
        }
        let ks = sorted_keys(&self.received_chunks);
        let mut i: usize = 0;
        while i < ks.len()
            invariant
                i <= ks@.len(),
                ks@.to_set() == m.dom(),
                m == self.received_chunks@,
                chunks_within(m, self.file_size),
                chunks_disjoint(m),
                size == self.file_size,
                result@.len() == size,
                forall|p: int| 0 <= p < size ==> #[trigger] result@[p] == if exists|a: int| 0 <= a < i && covers(m, ks@[a], p) {
                    byte_at(m, p)
                } else {
                    0
                },
            decreases ks@.len() - i,
        {
            let offset = ks[i];
            proof {
                assert(ks@.to_set().contains(offset));
            }
            match self.received_chunks.get(&offset) {
                Some(chunk) => {
                    let start = offset as usize;
                    let ghost before = result@;
                    let mut j: usize = 0;
                    while j < chunk.len()
                        invariant
                            j <= chunk@.len(),
                            chunk@ == m[offset]@,
                            m.contains_key(offset),
                            start == offset,
                            offset + chunk@.len() <= size,
                            result@.len() == size,
                            forall|p: int| 0 <= p < size && !(start <= p < start + j) ==> #[trigger] result@[p] == before[p],
                            forall|p: int| start <= p < start + j ==> #[trigger] result@[p] == chunk@[p - start],
                        decreases chunk@.len() - j,
                    {
                        result.set(start + j, chunk[j]);
                        j = j + 1;
                    }
                    proof {
                        assert forall|p: int| 0 <= p < size implies #[trigger] result@[p] == if exists|a: int| 0 <= a < i + 1 && covers(m, ks@[a], p) {
                            byte_at(m, p)
                        } else {
                            0
                        } by {
                            if covers(m, offset, p) {
                                lemma_byte_at(m, offset, p);
                                assert(covers(m, ks@[i as int], p));
                            } else {
                                assert(result@[p] == before[p]);
                                if exists|a: int| 0 <= a < i + 1 && covers(m, ks@[a], p) {
                                    let a = choose|a: int| 0 <= a < i + 1 && covers(m, ks@[a], p);
                                    assert(a != i);
                                }
                            }
                        }
                    }
                },
                None => {},
            }
            i = i + 1;
        }
        proof {
            assert forall|p: int| 0 <= p < size implies #[trigger] result@[p] == byte_at(m, p) by {
                if exists|k: u64| #[trigger] covers(m, k, p) {
                    let k = choose|k: u64| #[trigger] covers(m, k, p);
                    assert(ks@.to_set().contains(k));
                    let a = choose|a: int| 0 <= a < ks@.len() && ks@[a] == k;
                    assert(covers(m, ks@[a], p));
                } else {
                    if exists|a: int| 0 <= a < ks@.len() && covers(m, ks@[a], p) {
                        let a = choose|a: int| 0 <= a < ks@.len() && covers(m, ks@[a], p);
                        assert(covers(m, ks@[a], p));
                    }
                }
            }
            assert(result@ =~= assembled(m, self.file_size as nat));
        }
        Some(result)
    }
}

/// The transfers in progress, by file id.
pub struct FileTransferManager {
    active_transfers: KeyMap<FileTransfer, 16>,
}

impl View for FileTransferManager {
    type V = Map<Seq<u8>, FileTransfer>;

    closed spec fn view(&self) -> Map<Seq<u8>, FileTransfer> {
        self.active_transfers@
    }
}

impl FileTransferManager {
    #[verifier::type_invariant]
    spec fn inv(self) -> bool {
        forall|k: Seq<u8>| #[trigger] self.active_transfers@.contains_key(k) ==> self.active_transfers@[k].wf()
    }

    /// No transfers yet.
    pub fn new() -> (m: Self)
        ensures
            m@ == Map::<Seq<u8>, FileTransfer>::empty(),
    {
        FileTransferManager { active_transfers: KeyMap::new() }
    }

    fn put(&mut self, file_id: [u8; 16], t: FileTransfer)
        requires
            t.wf(),
        ensures
            final(self)@ == old(self)@.insert(file_id@, t),
    {
        proof { use_type_invariant(&*self); }
        let mut m: KeyMap<FileTransfer, 16> = KeyMap::new();
        std::mem::swap(&mut m, &mut self.active_transfers);
        m.insert(file_id, t);
        self.active_transfers = m;
    }

    fn take(&mut self, file_id: &[u8; 16]) -> (t: Option<FileTransfer>)
        ensures
            final(self)@ == old(self)@.remove(file_id@),
            match t {
                Some(x) => old(self)@.contains_key(file_id@) && old(self)@[file_id@] == x && x.wf(),
                None => !old(self)@.contains_key(file_id@),
            },
    {
        proof { use_type_invariant(&*self); }
        let mut m: KeyMap<FileTransfer, 16> = KeyMap::new();
        std::mem::swap(&mut m, &mut self.active_transfers);
        let t = m.remove(file_id);
        self.active_transfers = m;
        t
    }

    /// Starts tracking a transfer we send, replacing any with the same id.
    pub fn register_outgoing(&mut self, file_id: [u8; 16], file_name: String, file_size: u64)
        ensures
            final(self)@.dom() == old(self)@.dom().insert(file_id@),
            forall|k: Seq<u8>| k != file_id@ && #[trigger] old(self)@.contains_key(k) ==> final(self)@[k] == old(self)@[k],
            ({
                let t = final(self)@[file_id@];
                &&& t.file_id == file_id && t.file_name == file_name && t.file_size == file_size
                &&& t.bytes_transferred == 0 && t.is_sender && t.state == TransferState::Active
                &&& t.received_chunks@ == Map::<u64, Vec<u8>>::empty()
            }),
    {
        let transfer = FileTransfer::new_outgoing(file_id, file_name, file_size);
        self.put(file_id, transfer);
    }

    /// Starts tracking a transfer offered to us; refused over 4GB.
    pub fn register_incoming(&mut self, file_id: [u8; 16], file_name: String, file_size: u64) -> (r: Result<(), &'static str>)
        ensures
            file_size > MAX_TRANSFER_SIZE ==> r == Err::<(), &'static str>("File exceeds maximum allowed transfer size (4GB)")
                && final(self)@ == old(self)@,
            file_size <= MAX_TRANSFER_SIZE ==> r is Ok
                && final(self)@.dom() == old(self)@.dom().insert(file_id@)
                && (forall|k: Seq<u8>| k != file_id@ && #[trigger] old(self)@.contains_key(k) ==> final(self)@[k] == old(self)@[k])
                && ({
                    let t = final(self)@[file_id@];
                    &&& t.file_id == file_id && t.file_name == file_name && t.file_size == file_size
                    &&& t.bytes_transferred == 0 && !t.is_sender
                    &&& t.state == if file_size <= MAX_AUTO_ACCEPT_SIZE { TransferState::Active } else { TransferState::Pending }
                    &&& t.received_chunks@ == Map::<u64, Vec<u8>>::empty()
                }),
    {
        let transfer = FileTransfer::new_incoming(file_id, file_name, file_size)?;
        self.put(file_id, transfer);
        Ok(())
    }

    /// Approves a pending incoming transfer.
    pub fn accept(&mut self, file_id: &[u8; 16]) -> (r: Result<(), &'static str>)
        ensures
            !old(self)@.contains_key(file_id@) ==> r == Err::<(), &'static str>("Transfer not found") && final(self)@ == old(self)@,
            old(self)@.contains_key(file_id@) ==> {
                let t = old(self)@[file_id@];
                let t2 = final(self)@[file_id@];
                &&& final(self)@.dom() == old(self)@.dom()
                &&& forall|k: Seq<u8>| k != file_id@ && #[trigger] old(self)@.contains_key(k) ==> final(self)@[k] == old(self)@[k]
                &&& (r is Ok <==> (t.state is Pending && !t.is_sender))
                &&& r is Ok ==> t2.state == TransferState::Active
                &&& r is Err ==> r == Err::<(), &'static str>("Transfer cannot be accepted in its current state") && t2.state == t.state
                &&& t2.received_chunks@ == t.received_chunks@ && t2.bytes_transferred == t.bytes_transferred
                &&& t2.file_size == t.file_size && t2.file_id == t.file_id && t2.is_sender == t.is_sender
                &&& t2.file_name == t.file_name && t2.started_at == t.started_at
            },
    {
        match self.take(file_id) {
            Some(t) => {
                let mut t = t;
                let r = t.accept();
                self.put(*file_id, t);
                proof {
                    assert(old(self)@.remove(file_id@).insert(file_id@, t).dom() =~= old(self)@.dom());
                }
                r
            },
            None => Err("Transfer not found"),
        }
    }

    /// Cancels a transfer, if it is known.
    pub fn cancel(&mut self, file_id: &[u8; 16])
        ensures
            final(self)@.dom() == old(self)@.dom(),
            forall|k: Seq<u8>| k != file_id@ && #[trigger] old(self)@.contains_key(k) ==> final(self)@[k] == old(self)@[k],
            old(self)@.contains_key(file_id@) ==> {
                let t = old(self)@[file_id@];
                let t2 = final(self)@[file_id@];
                &&& t2.state == TransferState::Cancelled
                &&& t2.received_chunks@ == t.received_chunks@ && t2.bytes_transferred == t.bytes_transferred
                &&& t2.file_size == t.file_size && t2.file_id == t.file_id && t2.is_sender == t.is_sender
                &&& t2.file_name == t.file_name && t2.started_at == t.started_at
            },
    {
        match self.take(file_id) {
            Some(t) => {
                let mut t = t;
                t.cancel();
                self.put(*file_id, t);
                proof {
                    assert(old(self)@.remove(file_id@).insert(file_id@, t).dom() =~= old(self)@.dom());
                }
            },
            None => {
                proof {
                    assert(old(self)@.remove(file_id@) =~= old(self)@);
                }
            },
        }
    }

    /// Feeds a chunk to the transfer with this id.
    pub fn receive_chunk(&mut self, file_id: &[u8; 16], offset: u64, data: Vec<u8>) -> (r: Result<(), &'static str>)
        ensures
            !old(self)@.contains_key(file_id@) ==> r == Err::<(), &'static str>("Transfer not found") && final(self)@ == old(self)@,
            old(self)@.contains_key(file_id@) ==> {
                let t = old(self)@[file_id@];
                let t2 = final(self)@[file_id@];
                let m = t.received_chunks@;
                let active = t.state is Active;
                let fits = offset + data@.len() <= t.file_size;
                let dup = m.contains_key(offset);
                let clash = exists|k: u64| #[trigger] m.contains_key(k) && overlaps(offset, data@.len() as int, k, m[k]@.len() as int);
                let unchanged = t2.received_chunks@ == m && t2.bytes_transferred == t.bytes_transferred && t2.state == t.state;
                &&& final(self)@.dom() == old(self)@.dom()
                &&& forall|k: Seq<u8>| k != file_id@ && #[trigger] old(self)@.contains_key(k) ==> final(self)@[k] == old(self)@[k]
                &&& t2.file_size == t.file_size && t2.file_id == t.file_id && t2.is_sender == t.is_sender
                &&& !active ==> r == Err::<(), &'static str>("Transfer is not active") && unchanged
                &&& active && !fits ==> r == Err::<(), &'static str>("Chunk exceeds file boundary") && unchanged
                &&& active && fits && dup ==> r is Ok && unchanged
                &&& active && fits && !dup && clash ==> r == Err::<(), &'static str>("Overlapping chunk detected") && unchanged
                &&& active && fits && !dup && !clash ==> r is Ok
                    && t2.received_chunks@ == m.insert(offset, data)
                    && t2.bytes_transferred == t.bytes_transferred + data@.len()
                    && t2.state == if t2.bytes_transferred == t.file_size { TransferState::Completed } else { TransferState::Active }
            },
    {
        match self.take(file_id) {
            Some(t) => {
                let mut t = t;
                let r = t.receive_chunk(offset, data);
                self.put(*file_id, t);
                proof {
                    assert(old(self)@.remove(file_id@).insert(file_id@, t).dom() =~= old(self)@.dom());
                }
                r
            },
            None => Err("Transfer not found"),
        }
    }

    /// The transfer with this id, if any.
    pub fn get(&self, file_id: &[u8; 16]) -> (r: Option<&FileTransfer>)
        ensures
            match r {
                Some(t) => self@.contains_key(file_id@) && self@[file_id@] == *t && t.wf(),
                None => !self@.contains_key(file_id@),
            },
    {
        proof { use_type_invariant(self); }
        self.active_transfers.get(file_id)
    }
}

} // verus!
