use vstd::prelude::*;

verus! {

/// The block compression applied by the sorted-file backend.
#[derive(Clone, Copy, Debug, PartialEq, Eq, Structural)]
pub enum CompressionKind {
    Uncompressed,
    Snappy,
    Lz4,
}

/// One structural parameter tuple: it defines exactly one store variant
/// and, through `name_of`, one artifact name.
#[derive(Clone, Copy, Debug, PartialEq, Eq, Structural)]
pub struct Parameters {
    pub compression: CompressionKind,
    pub index_levels: u8,
    pub block_size: usize,
    pub index_key_interval: usize,
}

impl Parameters {
    /// The index key interval spaces keys out inside a block, so it can
    /// never be zero.
    pub open spec fn wf(self) -> bool {
        self.index_key_interval > 0
    }

    /// The block size the backend actually works with: it silently
    /// clamps any request below 1024 bytes up to 1024, so the grid's
    /// smallest block-size column in fact measures 1024-byte blocks.
    pub open spec fn effective_block_size(self) -> int {
        if self.block_size < 1024 {
            1024
        } else {
            self.block_size as int
        }
    }
}

pub open spec fn comp_at(c: int) -> CompressionKind {
    if c == 0 {
        CompressionKind::Uncompressed
    } else if c == 1 {
        CompressionKind::Snappy
    } else {
        CompressionKind::Lz4
    }
}

pub open spec fn block_size_at(b: int) -> usize {
    if b == 0 {
        8192
    } else if b == 1 {
        4096
    } else if b == 2 {
        2048
    } else if b == 3 {
        1024
    } else {
        512
    }
}

pub open spec fn interval_at(v: int) -> usize {
    if v == 0 {
        32
    } else if v == 1 {
        24
    } else if v == 2 {
        16
    } else if v == 3 {
        12
    } else if v == 4 {
        8
    } else if v == 5 {
        4
    } else {
        2
    }
}

/// The parameter tuple at coordinates (compression, level, block size,
/// interval) of the benchmark grid.
pub open spec fn grid_param(c: int, l: int, b: int, v: int) -> Parameters {
    Parameters {
        compression: comp_at(c),
        index_levels: l as u8,
        block_size: block_size_at(b),
        index_key_interval: interval_at(v),
    }
}

/// Where the tuple at those coordinates stands in the enumerated grid.
pub open spec fn grid_index(c: int, l: int, b: int, v: int) -> int {
    140 * c + 35 * l + 7 * b + v
}

pub proof fn lemma_grid_decompose(c: int, l: int, b: int, v: int)
    requires
        0 <= c < 3,
        0 <= l < 4,
        0 <= b < 5,
        0 <= v < 7,
    ensures
        grid_index(c, l, b, v) / 140 == c,
        (grid_index(c, l, b, v) / 35) % 4 == l,
        (grid_index(c, l, b, v) / 7) % 5 == b,
        grid_index(c, l, b, v) % 7 == v,
{
    let i = grid_index(c, l, b, v);
    vstd::arithmetic::div_mod::lemma_fundamental_div_mod_converse(i, 140, c, 35 * l + 7 * b + v);
    vstd::arithmetic::div_mod::lemma_fundamental_div_mod_converse(i, 35, 4 * c + l, 7 * b + v);
    vstd::arithmetic::div_mod::lemma_fundamental_div_mod_converse(4 * c + l, 4, c, l);
    vstd::arithmetic::div_mod::lemma_fundamental_div_mod_converse(i, 7, 20 * c + 5 * l + b, v);
    vstd::arithmetic::div_mod::lemma_fundamental_div_mod_converse(20 * c + 5 * l + b, 5, 4 * c + l, b);
}

/// Enumerates the full Cartesian product of the candidate compression
/// kinds, index fan-out levels, block sizes and index key intervals.
/// Tuples are distinct by construction; the order only steers the report.
#[verifier::rlimit(60)]
pub fn enumerate_grid() -> (r: Vec<Parameters>)
    ensures
        r@.len() == 420,
        forall|c: int, l: int, b: int, v: int|
            0 <= c < 3 && 0 <= l < 4 && 0 <= b < 5 && 0 <= v < 7 ==> r@[grid_index(c, l, b, v)]
                == grid_param(c, l, b, v),
        forall|i: int| 0 <= i < 420 ==> (#[trigger] r@[i]).wf(),
{
    let mut r: Vec<Parameters> = Vec::new();
    let mut ci: usize = 0;
    while ci < 3
        invariant
            0 <= ci <= 3,
            r@.len() == 140 * ci,
            forall|i: int|
                0 <= i < r@.len() ==> #[trigger] r@[i] == grid_param(
                    i / 140,
                    (i / 35) % 4,
                    (i / 7) % 5,
                    i % 7,
                ),
        decreases 3 - ci,
    {
        let compression = if ci == 0 {
            CompressionKind::Uncompressed
        } else if ci == 1 {
            CompressionKind::Snappy
        } else {
            CompressionKind::Lz4
        };
        let mut li: usize = 0;
        while li < 4
            invariant
                0 <= li <= 4,
                ci < 3,
                compression == comp_at(ci as int),
                r@.len() == 140 * ci + 35 * li,
                forall|i: int|
                    0 <= i < r@.len() ==> #[trigger] r@[i] == grid_param(
                        i / 140,
                        (i / 35) % 4,
                        (i / 7) % 5,
                        i % 7,
                    ),
            decreases 4 - li,
        {
            let mut bi: usize = 0;
            while bi < 5
                invariant
                    0 <= bi <= 5,
                    ci < 3,
                    li < 4,
                    compression == comp_at(ci as int),
                    r@.len() == 140 * ci + 35 * li + 7 * bi,
                    forall|i: int|
                        0 <= i < r@.len() ==> #[trigger] r@[i] == grid_param(
                            i / 140,
                            (i / 35) % 4,
                            (i / 7) % 5,
                            i % 7,
                        ),
                decreases 5 - bi,
            {
                let block_size = if bi == 0 {
                    8192
                } else if bi == 1 {
                    4096
                } else if bi == 2 {
                    2048
                } else if bi == 3 {
                    1024
                } else {
                    512
                };
                let mut vi: usize = 0;
                while vi < 7
                    invariant
                        0 <= vi <= 7,
                        ci < 3,
                        li < 4,
                        bi < 5,
                        compression == comp_at(ci as int),
                        block_size == block_size_at(bi as int),
                        r@.len() == 140 * ci + 35 * li + 7 * bi + vi,
                        forall|i: int|
                            0 <= i < r@.len() ==> #[trigger] r@[i] == grid_param(
                                i / 140,
                                (i / 35) % 4,
                                (i / 7) % 5,
                                i % 7,
                            ),
                    decreases 7 - vi,
                {
                    let interval = if vi == 0 {
                        32
                    } else if vi == 1 {
                        24
                    } else if vi == 2 {
                        16
                    } else if vi == 3 {
                        12
                    } else if vi == 4 {
                        8
                    } else if vi == 5 {
                        4
                    } else {
                        2
                    };
                    let p = Parameters {
                        compression,
                        index_levels: li as u8,
                        block_size,
                        index_key_interval: interval,
                    };
                    proof {
                        lemma_grid_decompose(ci as int, li as int, bi as int, vi as int);
                        assert(p == grid_param(ci as int, li as int, bi as int, vi as int));
                    }
                    r.push(p);
                    vi = vi + 1;
                }
                bi = bi + 1;
            }
            li = li + 1;
        }
        ci = ci + 1;
    }
    proof {
        assert forall|c: int, l: int, b: int, v: int|
            0 <= c < 3 && 0 <= l < 4 && 0 <= b < 5 && 0 <= v < 7 implies r@[grid_index(c, l, b, v)]
            == grid_param(c, l, b, v) by {
            lemma_grid_decompose(c, l, b, v);
        }
        assert(forall|i: int| 0 <= i < 420 ==> (#[trigger] r@[i]).wf());
    }
    r
}

/// The decimal digits of `n`, most significant first, as ASCII bytes.
pub open spec fn dec_digits(n: nat) -> Seq<u8>
    decreases n,
{
    if n < 10 {
        seq![(48 + n) as u8]
    } else {
        dec_digits(n / 10).push((48 + n % 10) as u8)
    }
}

/// Renders a number in decimal, as the artifact names spell it.
pub fn format_u64(x: u64) -> (r: Vec<u8>)
    ensures
        r@ == dec_digits(x as nat),
{
    let mut tmp: Vec<u8> = Vec::new();
    let mut cur: u64 = x;
    while cur >= 10
        invariant
            dec_digits(x as nat) =~= dec_digits(cur as nat) + tmp@.reverse(),
        decreases cur,
    {
        let d: u8 = (cur % 10) as u8;
        let ghost tmp0 = tmp@;
        tmp.push(48 + d);
        cur = cur / 10;
        proof {
            assert(tmp@.reverse() =~= seq![(48 + d) as u8] + tmp0.reverse());
        }
    }
    let mut r: Vec<u8> = Vec::new();
    r.push(48 + cur as u8);
    let n = tmp.len();
    let mut k: usize = 0;
    while k < n
        invariant
            0 <= k <= n,
            n == tmp@.len(),
            dec_digits(x as nat) =~= seq![r@[0]] + tmp@.reverse(),
            r@.len() == 1 + k,
            r@ =~= dec_digits(x as nat).take(1 + k),
        decreases n - k,
    {
        let d = tmp[n - 1 - k];
        proof {
            assert(tmp@.reverse()[k as int] == tmp@[n - 1 - k]);
            assert(dec_digits(x as nat)[1 + k] == tmp@.reverse()[k as int]);
        }
        r.push(d);
        k = k + 1;
    }
    proof {
        assert(dec_digits(x as nat).take(1 + n as int) =~= dec_digits(x as nat));
    }
    r
}

/// The label under which each compression kind appears in artifact names.
pub open spec fn comp_label(c: CompressionKind) -> Seq<u8> {
    match c {
        CompressionKind::Uncompressed => seq![78u8, 111u8, 110u8, 101u8],
        CompressionKind::Snappy => seq![83u8, 110u8, 97u8, 112u8, 112u8, 121u8],
        CompressionKind::Lz4 => seq![76u8, 122u8, 52u8],
    }
}

/// The artifact name of a parameter tuple: the four fields separated by
/// dots, with the fixed extension. Naming is a pure function of the
/// parameters, which is what makes reuse detection idempotent.
pub open spec fn name_of(p: Parameters) -> Seq<u8> {
    comp_label(p.compression) + seq![46u8] + dec_digits(p.index_levels as nat) + seq![46u8]
        + dec_digits(p.block_size as nat) + seq![46u8] + dec_digits(p.index_key_interval as nat)
        + seq![46u8, 103u8, 114u8, 100u8]
}

/// Builds the artifact file name for one parameter tuple.
pub fn artifact_name(p: &Parameters) -> (r: Vec<u8>)
    ensures
        r@ == name_of(*p),
{
    let mut r: Vec<u8> = Vec::new();
    match p.compression {
        CompressionKind::Uncompressed => {
            r.push(78u8);
            r.push(111u8);
            r.push(110u8);
            r.push(101u8);
        },
        CompressionKind::Snappy => {
            r.push(83u8);
            r.push(110u8);
            r.push(97u8);
            r.push(112u8);
            r.push(112u8);
            r.push(121u8);
        },
        CompressionKind::Lz4 => {
            r.push(76u8);
            r.push(122u8);
            r.push(52u8);
        },
    }
    proof {
        assert(r@ =~= comp_label(p.compression));
    }
    r.push(46u8);
    let mut part = format_u64(p.index_levels as u64);
    r.append(&mut part);
    r.push(46u8);
    let mut part = format_u64(p.block_size as u64);
    r.append(&mut part);
    r.push(46u8);
    let mut part = format_u64(p.index_key_interval as u64);
    r.append(&mut part);
    r.push(46u8);
    r.push(103u8);
    r.push(114u8);
    r.push(100u8);
    proof {
        assert(r@ =~= name_of(*p));
    }
    r
}

} // verus!
