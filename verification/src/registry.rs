//! The buffer registry: owns named buffers, computes the platform-mandated
//! alignment for uniform and storage buffers, and performs byte writes at
//! offsets. Every other component holds only string identifiers, never raw
//! handles, so all access goes through this registry. The registry keeps a
//! byte image of every buffer, so what was written can be read back; an
//! embedding mirrors creations and writes onto live GPU buffers.

use vstd::prelude::*;

use vstd::pervasive::VecAdditionalExecFns;
use vstd::slice::slice_to_vec;

verus! {

/// The two usage classes with distinct minimum offset alignments.
#[derive(Eq, PartialEq, Structural, Debug, Clone, Copy)]
pub enum UsageClass {
    Uniform,
    Storage,
}

/// Usage flags a buffer is created with.
#[derive(Eq, PartialEq, Structural, Debug, Clone, Copy)]
pub struct BufferUsage {
    pub vertex: bool,
    pub index: bool,
    pub uniform: bool,
    pub storage: bool,
    pub copy_dst: bool,
    pub copy_src: bool,
}

/// Why a registry operation failed.
#[derive(Eq, PartialEq, Structural, Debug, Clone, Copy)]
pub enum RegistryError {
    /// The named buffer does not exist.
    BufferNotFound,
    /// A buffer of this name already exists. Creation treats this as a
    /// recoverable no-op, never as a returned error.
    DuplicateId,
}

/// One named buffer: created once, mutated only through offset writes.
#[derive(Debug, Clone)]
pub struct NamedBuffer {
    pub id: String,
    pub usage: BufferUsage,
    pub contents: Vec<u8>,
}

/// Mathematical image of a [`NamedBuffer`].
#[verifier::ext_equal]
pub struct NamedBufferView {
    pub id: Seq<char>,
    pub usage: BufferUsage,
    pub contents: Seq<u8>,
}

impl View for NamedBuffer {
    type V = NamedBufferView;

    open spec fn view(&self) -> NamedBufferView {
        NamedBufferView { id: self.id@, usage: self.usage, contents: self.contents@ }
    }
}

/// The images of a whole buffer list.
pub open spec fn buffer_views(bs: Seq<NamedBuffer>) -> Seq<NamedBufferView> {
    Seq::new(bs.len(), |i: int| bs[i]@)
}

/// No two buffers share an id.
pub open spec fn ids_unique(vs: Seq<NamedBufferView>) -> bool {
    forall|i: int, j: int| 0 <= i < j < vs.len() ==> vs[i].id != vs[j].id
}

/// The buffer of the list carrying this id, where one exists.
pub open spec fn buffer_in(vs: Seq<NamedBufferView>, id: Seq<char>) -> NamedBufferView {
    vs[choose|i: int| 0 <= i < vs.len() && (#[trigger] vs[i]).id == id]
}

proof fn lemma_buffer_in_at(vs: Seq<NamedBufferView>, i: int, id: Seq<char>)
    requires
        ids_unique(vs),
        0 <= i < vs.len(),
        vs[i].id == id,
    ensures
        buffer_in(vs, id) == vs[i],
{
    let c = choose|c: int| 0 <= c < vs.len() && (#[trigger] vs[c]).id == id;
    if c != i {
        assert(vs[c].id == vs[i].id);
        assert(false);
    }
}

/// A value rounded up to the next multiple of `align`.
pub open spec fn spec_aligned_size(value: int, align: int) -> int
    recommends
        align >= 1,
{
    if value % align == 0 {
        value
    } else {
        value + (align - value % align)
    }
}

/// Rounding up to a multiple is inflationary, lands on a multiple, and is
/// idempotent: aligning an already aligned size changes nothing.
pub proof fn lemma_aligned_size_idempotent(value: int, align: int)
    requires
        align >= 1,
        value >= 0,
    ensures
        spec_aligned_size(value, align) >= value,
        spec_aligned_size(value, align) % align == 0,
        spec_aligned_size(spec_aligned_size(value, align), align) == spec_aligned_size(
            value,
            align,
        ),
{
    let r = value % align;
    if r != 0 {
        assert((value + (align - r)) % align == 0) by (nonlinear_arith)
            requires
                align >= 1,
                value >= 0,
                r == value % align,
                r != 0,
        ;
    }
}

/// A byte image with `data` written at `offset`, all other bytes kept.
pub open spec fn splice_bytes(contents: Seq<u8>, offset: int, data: Seq<u8>) -> Seq<u8> {
    Seq::new(
        contents.len(),
        |k: int|
            if offset <= k < offset + data.len() {
                data[k - offset]
            } else {
                contents[k]
            },
    )
}

/// Writing bytes at an offset and reading the same range back yields the
/// bytes that were written.
pub proof fn lemma_write_read_round_trip(contents: Seq<u8>, offset: int, data: Seq<u8>)
    requires
        0 <= offset,
        offset + data.len() <= contents.len(),
    ensures
        splice_bytes(contents, offset, data).subrange(offset, offset + data.len()) == data,
{
    assert(splice_bytes(contents, offset, data).subrange(offset, offset + data.len()) =~= data);
}

/// Owns the named buffers and the two minimum offset alignments.
pub struct BufferRegistry {
    pub buffers: Vec<NamedBuffer>,
    pub uniform_alignment: u64,
    pub storage_alignment: u64,
}

impl BufferRegistry {
    /// The images of the owned buffers, in creation order.
    pub open spec fn views(&self) -> Seq<NamedBufferView> {
        buffer_views(self.buffers@)
    }

    /// Well-formed: positive alignments, no two buffers sharing an id.
    pub open spec fn wf(&self) -> bool {
        &&& self.uniform_alignment >= 1
        &&& self.storage_alignment >= 1
        &&& ids_unique(self.views())
    }

    /// Whether a buffer of this id exists.
    pub open spec fn has_buffer(&self, id: Seq<char>) -> bool {
        exists|i: int| 0 <= i < self.views().len() && (#[trigger] self.views()[i]).id == id
    }

    /// The buffer of this id, where it exists.
    pub open spec fn buffer_at(&self, id: Seq<char>) -> NamedBufferView {
        buffer_in(self.views(), id)
    }

    /// The minimum offset alignment of a usage class.
    pub open spec fn spec_alignment(&self, class: UsageClass) -> u64 {
        match class {
            UsageClass::Uniform => self.uniform_alignment,
            UsageClass::Storage => self.storage_alignment,
        }
    }

    /// A fresh registry with the platform's two minimum offset alignments.
    pub fn new(uniform_alignment: u64, storage_alignment: u64) -> (r: BufferRegistry)
        requires
            uniform_alignment >= 1,
            storage_alignment >= 1,
        ensures
            r.wf(),
            r.views() == Seq::<NamedBufferView>::empty(),
            r.uniform_alignment == uniform_alignment,
            r.storage_alignment == storage_alignment,
    {
        let r = BufferRegistry { buffers: Vec::new(), uniform_alignment, storage_alignment };
        proof {
            assert(r.views() =~= Seq::<NamedBufferView>::empty());
        }
        r
    }

    /// The first index holding this id, if any.
    fn find_index(&self, id: &str) -> (r: Option<usize>)
        ensures
            match r {
                Some(i) => 0 <= i < self.views().len() && self.views()[i as int].id == id@,
                None => !self.has_buffer(id@),
            },
    {
        let key: String = id.to_owned();
        let mut i: usize = 0;
        while i < self.buffers.len()
            invariant
                0 <= i <= self.buffers@.len(),
                key@ == id@,
                forall|a: int| 0 <= a < i ==> (#[trigger] self.views()[a]).id != id@,
            decreases self.buffers@.len() - i,
        {
            if self.buffers[i].id == key {
                proof {
                    assert(self.views()[i as int].id == id@);
                }
                return Some(i);
            }
            proof {
                assert(self.views()[i as int] == self.buffers@[i as int]@);
            }
            i = i + 1;
        }
        None
    }

    /// Whether a buffer of this id exists.
    pub fn contains(&self, id: &str) -> (r: bool)
        ensures
            r == self.has_buffer(id@),
    {
        let found = self.find_index(id);
        match found {
            Some(i) => {
                proof {
                    assert(self.has_buffer(id@));
                }
                true
            },
            None => false,
        }
    }

    /// The byte size of the named buffer, where it exists.
    pub fn buffer_size(&self, id: &str) -> (r: Option<u64>)
        requires
            self.wf(),
        ensures
            match r {
                Some(n) => self.has_buffer(id@) && n == self.buffer_at(id@).contents.len(),
                None => !self.has_buffer(id@),
            },
    {
        match self.find_index(id) {
            Some(i) => {
                proof {
                    assert(self.has_buffer(id@));
                    lemma_buffer_in_at(self.views(), i as int, id@);
                }
                Some(self.buffers[i].contents.len() as u64)
            },
            None => None,
        }
    }

    /// How many buffers exist.
    pub fn buffer_count(&self) -> (r: usize)
        ensures
            r == self.views().len(),
    {
        self.buffers.len()
    }

    /// The minimum offset alignment of a usage class.
    pub fn alignment(&self, class: UsageClass) -> (r: u64)
        ensures
            r == self.spec_alignment(class),
    {
        match class {
            UsageClass::Uniform => self.uniform_alignment,
            UsageClass::Storage => self.storage_alignment,
        }
    }

    /// Creates a buffer of `size` zeroed bytes under this id. Creation is
    /// idempotent: when the id already exists, nothing changes and the call
    /// still succeeds, so a scene can be constructed repeatedly.
    pub fn create(&mut self, id: &str, size: u64, usage: BufferUsage) -> (r: Result<
        (),
        RegistryError,
    >)
        requires
            old(self).wf(),
            size <= usize::MAX,
        ensures
            final(self).wf(),
            r == Ok::<(), RegistryError>(()),
            final(self).has_buffer(id@),
            final(self).uniform_alignment == old(self).uniform_alignment,
            final(self).storage_alignment == old(self).storage_alignment,
            old(self).has_buffer(id@) ==> *final(self) == *old(self),
            !old(self).has_buffer(id@) ==> final(self).views() == old(self).views().push(
                NamedBufferView { id: id@, usage, contents: Seq::new(size as nat, |k: int| 0u8) },
            ),
    {
        match self.find_index(id) {
            Some(i) => {
                proof {
                    assert(self.has_buffer(id@));
                }
                Ok(())
            },
            None => {
                let ghost orig = self.views();
                let buf = NamedBuffer { id: id.to_owned(), usage, contents: vec![0u8; size as usize] };
                proof {
                    assert(buf@ =~= NamedBufferView {
                        id: id@,
                        usage,
                        contents: Seq::new(size as nat, |k: int| 0u8),
                    });
                }
                self.buffers.push(buf);
                proof {
                    assert(self.views() =~= orig.push(buf@));
                    assert(self.views()[orig.len() as int].id == id@);
                    assert forall|a: int, b: int|
                        0 <= a < b < self.views().len() implies self.views()[a].id
                        != self.views()[b].id by {
                        if b < orig.len() {
                            assert(orig[a].id != orig[b].id);
                        } else {
                            assert(orig[a].id == self.views()[a].id);
                        }
                    }
                }
                Ok(())
            },
        }
    }

    /// Creates a buffer holding these bytes under this id, with the same
    /// idempotence rule as [`BufferRegistry::create`].
    pub fn create_with_contents(&mut self, id: &str, data: &[u8], usage: BufferUsage) -> (r: Result<
        (),
        RegistryError,
    >)
        requires
            old(self).wf(),
        ensures
            final(self).wf(),
            r == Ok::<(), RegistryError>(()),
            final(self).has_buffer(id@),
            final(self).uniform_alignment == old(self).uniform_alignment,
            final(self).storage_alignment == old(self).storage_alignment,
            old(self).has_buffer(id@) ==> *final(self) == *old(self),
            !old(self).has_buffer(id@) ==> final(self).views() == old(self).views().push(
                NamedBufferView { id: id@, usage, contents: data@ },
            ),
    {
        match self.find_index(id) {
            Some(i) => {
                proof {
                    assert(self.has_buffer(id@));
                }
                Ok(())
            },
            None => {
                let ghost orig = self.views();
                let buf = NamedBuffer { id: id.to_owned(), usage, contents: slice_to_vec(data) };
                self.buffers.push(buf);
                proof {
                    assert(self.views() =~= orig.push(
                        NamedBufferView { id: id@, usage, contents: data@ },
                    ));
                    assert(self.views()[orig.len() as int].id == id@);
                    assert forall|a: int, b: int|
                        0 <= a < b < self.views().len() implies self.views()[a].id
                        != self.views()[b].id by {
                        if b < orig.len() {
                            assert(orig[a].id != orig[b].id);
                        } else {
                            assert(orig[a].id == self.views()[a].id);
                        }
                    }
                }
                Ok(())
            },
        }
    }

    /// Writes bytes at a byte offset into the named buffer. The named buffer
    /// must be large enough; a missing buffer is reported as
    /// `BufferNotFound` and leaves the registry unchanged.
    pub fn write(&mut self, id: &str, offset: u64, data: &[u8]) -> (r: Result<(), RegistryError>)
        requires
            old(self).wf(),
            old(self).has_buffer(id@) ==> offset + data@.len() <= old(self).buffer_at(
                id@,
            ).contents.len(),
        ensures
            final(self).wf(),
            final(self).uniform_alignment == old(self).uniform_alignment,
            final(self).storage_alignment == old(self).storage_alignment,
            forall|x: Seq<char>| final(self).has_buffer(x) == old(self).has_buffer(x),
            !old(self).has_buffer(id@) ==> r == Err::<(), RegistryError>(
                RegistryError::BufferNotFound,
            ) && *final(self) == *old(self),
            old(self).has_buffer(id@) ==> r == Ok::<(), RegistryError>(()) && {
                &&& final(self).buffer_at(id@) == (NamedBufferView {
                    id: id@,
                    usage: old(self).buffer_at(id@).usage,
                    contents: splice_bytes(
                        old(self).buffer_at(id@).contents,
                        offset as int,
                        data@,
                    ),
                })
                &&& forall|x: Seq<char>|
                    x != id@ && old(self).has_buffer(x) ==> final(self).buffer_at(x) == old(
                        self,
                    ).buffer_at(x)
            },
    {
        let ghost orig = self.views();
        match self.find_index(id) {
            None => Err(RegistryError::BufferNotFound),
            Some(i) => {
                proof {
                    assert(self.has_buffer(id@));
                    lemma_buffer_in_at(orig, i as int, id@);
                }
                let mut buf = self.buffers.remove(i);
                let ghost base = buf.contents@;
                let n = data.len();
                let total = buf.contents.len();
                proof {
                    assert(offset + n <= total);
                }
                let start = offset as usize;
                let mut k: usize = 0;
                while k < n
                    invariant
                        0 <= k <= n,
                        n == data@.len(),
                        start == offset,
                        offset + n <= base.len(),
                        base.len() <= usize::MAX,
                        buf.contents@.len() == base.len(),
                        buf.id@ == orig[i as int].id,
                        buf.usage == orig[i as int].usage,
                        forall|t: int|
                            0 <= t < base.len() ==> buf.contents@[t] == (if offset <= t < offset
                                + k {
                                data@[t - offset]
                            } else {
                                base[t]
                            }),
                    decreases n - k,
                {
                    buf.contents.set(start + k, data[k]);
                    k = k + 1;
                }
                proof {
                    assert(buf.contents@ =~= splice_bytes(base, offset as int, data@));
                }
                let ghost updated = buf@;
                self.buffers.insert(i, buf);
                proof {
                    assert(self.views() =~= orig.update(i as int, updated));
                    assert(forall|t: int|
                        0 <= t < self.views().len() ==> (#[trigger] self.views()[t]).id
                            == orig[t].id);
                    assert forall|x: Seq<char>| self.has_buffer(x) == old(self).has_buffer(
                        x,
                    ) by {
                        if old(self).has_buffer(x) {
                            let j = choose|j: int|
                                0 <= j < orig.len() && (#[trigger] orig[j]).id == x;
                            assert(self.views()[j].id == x);
                        }
                        if self.has_buffer(x) {
                            let j = choose|j: int|
                                0 <= j < self.views().len() && (#[trigger] self.views()[j]).id == x;
                            assert(orig[j].id == x);
                        }
                    }
                    lemma_buffer_in_at(self.views(), i as int, id@);
                    assert forall|x: Seq<char>|
                        x != id@ && old(self).has_buffer(x) implies self.buffer_at(x) == old(
                        self,
                    ).buffer_at(x) by {
                        let j = choose|j: int| 0 <= j < orig.len() && (#[trigger] orig[j]).id == x;
                        assert(j != i);
                        lemma_buffer_in_at(orig, j, x);
                        lemma_buffer_in_at(self.views(), j, x);
                    }
                }
                Ok(())
            },
        }
    }

    /// Reads bytes back from a byte offset of the named buffer; the range
    /// must lie within it. A missing buffer is reported as `BufferNotFound`.
    pub fn read(&self, id: &str, offset: u64, len: usize) -> (r: Result<Vec<u8>, RegistryError>)
        requires
            self.wf(),
            self.has_buffer(id@) ==> offset + len <= self.buffer_at(id@).contents.len(),
        ensures
            match r {
                Ok(bytes) => self.has_buffer(id@) && bytes@ == self.buffer_at(
                    id@,
                ).contents.subrange(offset as int, offset as int + len as int),
                Err(e) => e == RegistryError::BufferNotFound && !self.has_buffer(id@),
            },
    {
        match self.find_index(id) {
            None => Err(RegistryError::BufferNotFound),
            Some(i) => {
                proof {
                    assert(self.has_buffer(id@));
                    lemma_buffer_in_at(self.views(), i as int, id@);
                }
                let total = self.buffers[i].contents.len();
                proof {
                    assert(offset + len <= total);
                }
                let start = offset as usize;
                let slice = vstd::slice::slice_subrange(
                    self.buffers[i].contents.as_slice(),
                    start,
                    start + len,
                );
                Ok(slice_to_vec(slice))
            },
        }
    }

    /// Writes these bytes at offset zero when the named buffer exists — it
    /// must then be large enough — and creates the buffer with exactly these
    /// bytes otherwise. Exactly one of the two happens, and every other
    /// buffer is left untouched.
    pub fn write_or_create(&mut self, id: &str, data: &[u8], usage: BufferUsage)
        requires
            old(self).wf(),
            old(self).has_buffer(id@) ==> data@.len() <= old(self).buffer_at(id@).contents.len(),
        ensures
            final(self).wf(),
            final(self).has_buffer(id@),
            final(self).uniform_alignment == old(self).uniform_alignment,
            final(self).storage_alignment == old(self).storage_alignment,
            old(self).has_buffer(id@) ==> {
                &&& final(self).buffer_at(id@) == (NamedBufferView {
                    id: id@,
                    usage: old(self).buffer_at(id@).usage,
                    contents: splice_bytes(old(self).buffer_at(id@).contents, 0, data@),
                })
                &&& forall|x: Seq<char>| final(self).has_buffer(x) == old(self).has_buffer(x)
                &&& forall|x: Seq<char>|
                    x != id@ && old(self).has_buffer(x) ==> final(self).buffer_at(x) == old(
                        self,
                    ).buffer_at(x)
            },
            !old(self).has_buffer(id@) ==> final(self).views() == old(self).views().push(
                NamedBufferView { id: id@, usage, contents: data@ },
            ),
    {
        if self.contains(id) {
            let outcome = self.write(id, 0, data);
            proof {
                assert(outcome is Ok);
            }
        } else {
            let outcome = self.create_with_contents(id, data, usage);
        }
    }

    /// The dynamic byte offset of object `index` in a shared per-object
    /// array whose elements are laid out at the class's aligned stride:
    /// object `index` sits at `index * aligned_size(element_size, class)`.
    pub fn object_offset(&self, index: u64, element_size: u64, class: UsageClass) -> (r: u64)
        requires
            self.wf(),
            spec_aligned_size(element_size as int, self.spec_alignment(class) as int) <= u64::MAX,
            index * spec_aligned_size(element_size as int, self.spec_alignment(class) as int)
                <= u64::MAX,
        ensures
            r == index * spec_aligned_size(
                element_size as int,
                self.spec_alignment(class) as int,
            ),
    {
        let stride = self.aligned_size(element_size, class);
        index * stride
    }

    /// Rounds a size up to the class's minimum offset alignment: the result
    /// is the least multiple of the alignment at or above `value`. Every
    /// caller laying out a shared per-object array takes the element stride
    /// from here, never rounding on its own.
    pub fn aligned_size(&self, value: u64, class: UsageClass) -> (r: u64)
        requires
            self.wf(),
            spec_aligned_size(value as int, self.spec_alignment(class) as int) <= u64::MAX,
        ensures
            r == spec_aligned_size(value as int, self.spec_alignment(class) as int),
    {
        let align = self.alignment(class);
        let rem = value % align;
        if rem == 0 {
            value
        } else {
            value + (align - rem)
        }
    }
}

} // verus!
