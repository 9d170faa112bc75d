//! The vector memory: `SIZE` activation words, read and written in ranges.
use vstd::prelude::*;
use crate::types::PeAct;

verus! {

pub struct Vmem<const SIZE: usize> {
    mem: Vec<PeAct>,
    out_data: Vec<PeAct>,
    out_valid: bool,
}

pub struct VmemStrobes {
    pub read: bool,
    pub write: bool,
    pub reset: bool,
}

pub struct VmemInputs {
    pub addr: usize,
    pub size: usize,
    pub wr_data: Vec<PeAct>,
    pub strobes: VmemStrobes,
}

/// The vector memory never fails a cycle.
pub type VmemError = core::convert::Infallible;

/// `n` zero words.
pub open spec fn zeros(n: int) -> Seq<PeAct> {
    Seq::new(n as nat, |i: int| 0i8)
}

/// `mem` with `data` written from `addr` on.
pub open spec fn mem_write(mem: Seq<PeAct>, addr: int, data: Seq<PeAct>) -> Seq<PeAct> {
    mem.take(addr) + data + mem.skip(addr + data.len())
}

/// One clock edge of a memory of `size` words: reset clears the memory and
/// the output; otherwise a read of a range that fits latches the words of the
/// memory as they were before the edge (a read out of range, or no read,
/// deasserts the output and keeps its data), and a write of a range that fits
/// stores the data (one out of range is ignored).
pub open spec fn vmem_next(
    size: int,
    pre_mem: Seq<PeAct>,
    pre_out: Seq<PeAct>,
    addr: int,
    len: int,
    wr_data: Seq<PeAct>,
    strobes: VmemStrobes,
    post_mem: Seq<PeAct>,
    post_out: Seq<PeAct>,
    post_valid: bool,
) -> bool {
    if strobes.reset {
        &&& post_mem == zeros(size)
        &&& post_out == Seq::<PeAct>::empty()
        &&& !post_valid
    } else {
        &&& if strobes.read && addr + len <= size {
            &&& post_out == pre_mem.subrange(addr, addr + len)
            &&& post_valid
        } else {
            &&& post_out == pre_out
            &&& !post_valid
        }
        &&& post_mem == if strobes.write && addr + len <= size {
            mem_write(pre_mem, addr, wr_data)
        } else {
            pre_mem
        }
    }
}

/// A write of a range that fits stores the data there and leaves every other
/// word as it was; and a read of that range on the next cycle gives the data
/// back.
pub proof fn lemma_vmem_write_then_read(
    size: int,
    mem0: Seq<PeAct>,
    out0: Seq<PeAct>,
    addr: int,
    len: int,
    data: Seq<PeAct>,
    write: VmemStrobes,
    mem1: Seq<PeAct>,
    out1: Seq<PeAct>,
    valid1: bool,
    other: Seq<PeAct>,
    read: VmemStrobes,
    mem2: Seq<PeAct>,
    out2: Seq<PeAct>,
    valid2: bool,
)
    requires
        mem0.len() == size,
        0 <= addr,
        0 <= len,
        addr + len <= size,
        data.len() == len,
        write.write && !write.reset,
        vmem_next(size, mem0, out0, addr, len, data, write, mem1, out1, valid1),
        read.read && !read.reset,
        vmem_next(size, mem1, out1, addr, len, other, read, mem2, out2, valid2),
    ensures
        mem1.len() == size,
        forall|j: int| 0 <= j < size && !(addr <= j < addr + len) ==> #[trigger] mem1[j] == mem0[j],
        forall|j: int| 0 <= j < len ==> #[trigger] mem1[addr + j] == data[j],
        out2 == data,
        valid2,
{
    assert(mem1 == mem_write(mem0, addr, data));
    assert(mem1.subrange(addr, addr + len) =~= data);
}

fn zero_words(n: usize) -> (r: Vec<PeAct>)
    ensures
        r@ == zeros(n as int),
{
    let mut v: Vec<PeAct> = Vec::new();
    let mut k: usize = 0;
    while k < n
        invariant
            k <= n,
            v@ == zeros(k as int),
        decreases n - k,
    {
        v.push(0);
        k = k + 1;
        assert(v@ == zeros(k as int));
    }
    v
}

impl<const SIZE: usize> Vmem<SIZE> {
    pub closed spec fn spec_mem(&self) -> Seq<PeAct> {
        self.mem@
    }

    pub closed spec fn spec_out_data(&self) -> Seq<PeAct> {
        self.out_data@
    }

    pub closed spec fn spec_out_valid(&self) -> bool {
        self.out_valid
    }

    pub closed spec fn wf(&self) -> bool {
        self.mem@.len() == SIZE
    }

    /// A well-formed memory holds `SIZE` words.
    pub proof fn lemma_wf(&self)
        requires
            self.wf(),
        ensures
            self.spec_mem().len() == SIZE,
    {
    }

    /// Read after write, stated over the memory itself: a cycle that writes
    /// a range that fits, followed by a cycle that reads the same range,
    /// outputs the words written.
    pub proof fn lemma_write_then_read(v0: Self, w: VmemInputs, v1: Self, r: VmemInputs, v2: Self)
        requires
            v0.wf(),
            w.strobes.write && !w.strobes.reset,
            w.addr + w.size <= SIZE,
            w.wr_data@.len() == w.size,
            vmem_next(
                SIZE as int,
                v0.spec_mem(),
                v0.spec_out_data(),
                w.addr as int,
                w.size as int,
                w.wr_data@,
                w.strobes,
                v1.spec_mem(),
                v1.spec_out_data(),
                v1.spec_out_valid(),
            ),
            r.strobes.read && !r.strobes.reset,
            r.addr == w.addr,
            r.size == w.size,
            vmem_next(
                SIZE as int,
                v1.spec_mem(),
                v1.spec_out_data(),
                r.addr as int,
                r.size as int,
                r.wr_data@,
                r.strobes,
                v2.spec_mem(),
                v2.spec_out_data(),
                v2.spec_out_valid(),
            ),
        ensures
            v2.spec_out_data() == w.wr_data@,
            v2.spec_out_valid(),
    {
        lemma_vmem_write_then_read(
            SIZE as int,
            v0.spec_mem(),
            v0.spec_out_data(),
            w.addr as int,
            w.size as int,
            w.wr_data@,
            w.strobes,
            v1.spec_mem(),
            v1.spec_out_data(),
            v1.spec_out_valid(),
            r.wr_data@,
            r.strobes,
            v2.spec_mem(),
            v2.spec_out_data(),
            v2.spec_out_valid(),
        );
    }

    pub fn new() -> (r: Result<Self, VmemError>)
        ensures
            r matches Ok(m) && m.wf() && m.spec_mem() == zeros(SIZE as int) && m.spec_out_data()
                == Seq::<PeAct>::empty() && !m.spec_out_valid(),
    {
        Ok(Self { mem: zero_words(SIZE), out_data: Vec::new(), out_valid: false })
    }

    pub fn tick(&mut self, inputs: VmemInputs) -> (r: Result<(), VmemError>)
        requires
            old(self).wf(),
            !inputs.strobes.reset && (inputs.strobes.read || inputs.strobes.write) ==> inputs.addr
                + inputs.size <= usize::MAX,
            !inputs.strobes.reset && inputs.strobes.write ==> inputs.wr_data@.len() == inputs.size,
        ensures
            r is Ok,
            final(self).wf(),
            final(self).spec_mem().len() == SIZE,
            vmem_next(
                SIZE as int,
                old(self).spec_mem(),
                old(self).spec_out_data(),
                inputs.addr as int,
                inputs.size as int,
                inputs.wr_data@,
                inputs.strobes,
                final(self).spec_mem(),
                final(self).spec_out_data(),
                final(self).spec_out_valid(),
            ),
    {
        if inputs.strobes.reset {
            self.mem = zero_words(SIZE);
            self.out_data.clear();
            self.out_valid = false;
        } else {
            if inputs.strobes.read {
                if inputs.addr + inputs.size <= SIZE {
                    let range = vstd::slice::slice_subrange(
                        self.mem.as_slice(),
                        inputs.addr,
                        inputs.addr + inputs.size,
                    );
                    self.out_data = vstd::slice::slice_to_vec(range);
                    self.out_valid = true;
                } else {
                    self.out_valid = false;
                }
            } else {
                self.out_valid = false;
            }
            if inputs.strobes.write {
                if inputs.addr + inputs.size <= SIZE {
                    let ghost pre = self.mem@;
                    let ghost out0 = self.out_data@;
                    let ghost valid0 = self.out_valid;
                    let mut k: usize = 0;
                    while k < inputs.size
                        invariant
                            k <= inputs.size,
                            inputs.addr + inputs.size <= SIZE,
                            inputs.wr_data@.len() == inputs.size,
                            pre.len() == SIZE,
                            self.mem@.len() == SIZE,
                            self.out_data@ == out0,
                            self.out_valid == valid0,
                            forall|j: int| 0 <= j < inputs.addr ==> #[trigger] self.mem@[j] == pre[j],
                            forall|j: int| inputs.addr + k <= j < SIZE ==> #[trigger] self.mem@[j] == pre[j],
                            forall|j: int| 0 <= j < k ==> #[trigger] self.mem@[inputs.addr + j] == inputs.wr_data@[j],
                        decreases inputs.size - k,
                    {
                        self.mem.set(inputs.addr + k, inputs.wr_data[k]);
                        k = k + 1;
                    }
                    let ghost w = mem_write(pre, inputs.addr as int, inputs.wr_data@);
                    assert forall|j: int| 0 <= j < SIZE implies #[trigger] self.mem@[j] == w[j] by {
                        if inputs.addr <= j < inputs.addr + inputs.size {
                            assert(self.mem@[inputs.addr + (j - inputs.addr)] == inputs.wr_data@[j - inputs.addr]);
                        }
                    }
                    assert(self.mem@ =~= w);
                }
            }
        }
        Ok(())
    }

    pub fn out_data(&self) -> (r: Vec<PeAct>)
        ensures
            r@ == self.spec_out_data(),
    {
        self.out_data.clone()
    }

    pub fn out_valid(&self) -> (r: bool)
        ensures
            r == self.spec_out_valid(),
    {
        self.out_valid
    }
}

} // verus!
