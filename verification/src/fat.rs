//! Reading a file of the cluster-chained filesystem: which parts of which
//! clusters go where in the caller's buffer.
use vstd::prelude::*;
use crate::vfs::Error;

verus! {

/// The message of the error that a chain ending too early gives.
pub const SHORT_CHAIN: &'static str = "Cluster chain terminated early";

/// An open file: its first cluster, its size in bytes, and the size of a
/// cluster of its volume.
pub struct FileNode {
    pub first_cluster: u32,
    pub size: u32,
    pub cluster_size: usize,
}

/// One read of a plan: `len` bytes of `cluster`, from byte `from` of the
/// cluster on, go to the buffer from byte `at` on.
#[derive(Debug, PartialEq, Eq)]
pub struct ClusterRead {
    pub cluster: u32,
    pub from: usize,
    pub len: usize,
    pub at: usize,
}

/// What a read of a file comes to: the reads to make, in order, and the
/// result to report when they are made. With an error, the reads are those
/// that come before the place where the chain ends.
pub struct ReadPlan {
    pub reads: Vec<ClusterRead>,
    pub result: Result<usize, Error>,
}

/// The number of bytes that a read at `ofs` into a buffer of `buf_len`
/// bytes gets from a file of `size` bytes.
pub open spec fn read_length(size: u32, ofs: u64, buf_len: usize) -> int {
    if buf_len <= size - ofs {
        buf_len as int
    } else {
        size - ofs
    }
}

/// The number of clusters that a read of `len` bytes touches, if it starts
/// at byte `first` of its first cluster.
pub open spec fn clusters_touched(cluster_size: usize, first: int, len: int) -> int {
    if len == 0 {
        0
    } else {
        (first + len + cluster_size - 1) / (cluster_size as int)
    }
}

/// Read number `k` of a read that starts at byte `first` of cluster number
/// `skip` of the chain and gets `len` bytes.
pub open spec fn nth_read(
    chain: Seq<u32>,
    cluster_size: usize,
    skip: int,
    first: int,
    len: int,
    k: int,
) -> ClusterRead {
    let from = if k == 0 {
        first
    } else {
        0
    };
    let at = if k == 0 {
        0
    } else {
        k * cluster_size - first
    };
    let rest = len - at;
    ClusterRead {
        cluster: chain[skip + k],
        from: from as usize,
        len: (if rest <= cluster_size - from {
            rest
        } else {
            cluster_size - from
        }) as usize,
        at: at as usize,
    }
}

impl FileNode {
    /// A file.
    pub fn new_boxed(_parent: u32, first_cluster: u32, size: u32, cluster_size: usize) -> (node:
        Box<FileNode>)
        ensures
            node.first_cluster == first_cluster,
            node.size == size,
            node.cluster_size == cluster_size,
    {
        Box::new(FileNode { first_cluster, size, cluster_size })
    }

    /// The size of the file in bytes.
    pub fn size(&self) -> (size: u64)
        ensures
            size == self.size,
    {
        self.size as u64
    }

    /// Plans a read at byte `ofs` of the file into a buffer of `buf_len`
    /// bytes, given the chain of the file's clusters.
    ///
    /// A read beyond the end of the file is refused, and a read at the end
    /// gets nothing. Otherwise the read gets as many bytes as the buffer
    /// takes and the file has left, cluster by cluster: the first read
    /// starts inside its cluster, every other at the start of its own. If
    /// the chain ends before the bytes are got, the result is the error of a
    /// short chain.
    pub fn read(&self, chain: &Vec<u32>, ofs: u64, buf_len: usize) -> (plan: ReadPlan)
        requires
            self.cluster_size > 0,
        ensures
            ofs > self.size ==> plan.reads@.len() == 0 && plan.result == Err::<usize, Error>(
                Error::InvalidParameter,
            ),
            ofs <= self.size ==> {
                let len = read_length(self.size, ofs, buf_len);
                let skip = ofs as int / self.cluster_size as int;
                let first = ofs as int % self.cluster_size as int;
                let need = clusters_touched(self.cluster_size, first, len);
                let have = if chain@.len() >= skip {
                    chain@.len() - skip
                } else {
                    0
                };
                &&& plan.reads@.len() == if need <= have {
                    need
                } else {
                    have
                }
                &&& forall|k: int|
                    0 <= k < plan.reads@.len() ==> #[trigger] plan.reads@[k] == nth_read(
                        chain@,
                        self.cluster_size,
                        skip,
                        first,
                        len,
                        k,
                    )
                &&& plan.result == if need <= have {
                    Ok::<usize, Error>(len as usize)
                } else {
                    Err::<usize, Error>(Error::Unknown(SHORT_CHAIN))
                }
            },
    {
        let mut reads: Vec<ClusterRead> = Vec::new();
        if ofs > self.size as u64 {
            return ReadPlan { reads, result: Err(Error::InvalidParameter) };
        }
        let maxread = (self.size as u64 - ofs) as usize;
        let len = if buf_len > maxread {
            maxread
        } else {
            buf_len
        };
        let cluster_size = self.cluster_size;
        let skip = ofs / cluster_size as u64;
        let first = (ofs % cluster_size as u64) as usize;
        let ghost need = clusters_touched(cluster_size, first as int, len as int);
        let ghost have = if chain@.len() >= skip {
            chain@.len() - skip
        } else {
            0
        };
        let mut at: usize = 0;
        let mut k: usize = 0;
        proof {
            if len > 0 {
                lemma_touched(cluster_size, first as int, len as int, 0);
            }
        }
        while at < len
            invariant
                ofs <= self.size,
                len == read_length(self.size, ofs, buf_len),
                skip == ofs as int / self.cluster_size as int,
                first == ofs as int % self.cluster_size as int,
                cluster_size == self.cluster_size,
                cluster_size > 0,
                first < cluster_size,
                len <= u32::MAX,
                at <= len,
                k == reads@.len(),
                k <= have,
                k <= need,
                at == if k == 0 {
                    0
                } else if k * cluster_size - first < len {
                    k * cluster_size - first
                } else {
                    len as int
                },
                (at < len) == (k < need),
                need == clusters_touched(cluster_size, first as int, len as int),
                have == if chain@.len() >= skip {
                    chain@.len() - skip
                } else {
                    0
                },
                forall|j: int|
                    0 <= j < k ==> #[trigger] reads@[j] == nth_read(
                        chain@,
                        cluster_size,
                        skip as int,
                        first as int,
                        len as int,
                        j,
                    ),
            decreases len - at,
        {
            if skip >= chain.len() as u64 || k >= chain.len() - skip as usize {
                return ReadPlan { reads, result: Err(Error::Unknown(SHORT_CHAIN)) };
            }
            let from = if k == 0 {
                first
            } else {
                0
            };
            let rest = len - at;
            let count = if rest <= cluster_size - from {
                rest
            } else {
                cluster_size - from
            };
            proof {
                lemma_touched(cluster_size, first as int, len as int, k as int);
            }
            reads.push(ClusterRead { cluster: chain[skip as usize + k], from, len: count, at });
            at = at + count;
            k = k + 1;
        }
        ReadPlan { reads, result: Ok(len) }
    }
}

/// How far `k` reads get: read `k` is needed just when the reads before it
/// have not got all the bytes.
proof fn lemma_touched(cluster_size: usize, first: int, len: int, k: int)
    requires
        cluster_size > 0,
        0 <= first < cluster_size,
        0 < len,
        0 <= k,
    ensures
        (k + 1 < clusters_touched(cluster_size, first, len)) == ((k + 1) * cluster_size - first
            < len),
        (k < clusters_touched(cluster_size, first, len)) == (k == 0 || k * cluster_size - first
            < len),
        (k + 1) * cluster_size == k * cluster_size + cluster_size,
{
    let cs = cluster_size as int;
    let total = first + len + cs - 1;
    let need = total / cs;
    assert((k + 1) * cs == k * cs + cs) by (nonlinear_arith);
    vstd::arithmetic::div_mod::lemma_fundamental_div_mod(total, cs);
    assert((k + 1 < need) == ((k + 1) * cs - first < len)) by (nonlinear_arith)
        requires
            cs * need <= total < cs * need + cs,
            total == first + len + cs - 1,
            cs > 0,
    ;
    assert((k < need) == (k * cs - first < len)) by (nonlinear_arith)
        requires
            cs * need <= total < cs * need + cs,
            total == first + len + cs - 1,
            cs > 0,
    ;
}

} // verus!
