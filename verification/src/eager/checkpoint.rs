//! The eager checkpoint: a 28-byte header, then the weights layer by layer
//! as little-endian `f32` values: the embedding table, each layer's nine
//! tensors, the final norm, two rotary tables (skipped), and the classifier
//! unless it shares the embedding table. Here the header is decoded and
//! each tensor's byte range found; the values are read outside this crate.

use vstd::prelude::*;
use crate::eager::config::{Config, header_values, header_accepted_shape, fields_positive, spec_config_of};
use crate::io_error::unexpected_eof;

verus! {

/// The tensor sizes of one layer, in file order.
pub open spec fn layer_sizes(c: Config) -> Seq<int> {
    let kv = (c.dim / c.n_heads) * c.n_kv_heads;
    seq![
        c.dim as int,
        c.dim * c.dim,
        c.dim * kv,
        c.dim * kv,
        c.dim * c.dim,
        c.dim as int,
        c.hidden_dim * c.dim,
        c.dim * c.hidden_dim,
        c.hidden_dim * c.dim,
    ]
}

/// The tensor sizes of the first `k` layers.
pub open spec fn layers_sizes(c: Config, k: nat) -> Seq<int>
    decreases k,
{
    if k == 0 {
        Seq::empty()
    } else {
        layers_sizes(c, (k - 1) as nat) + layer_sizes(c)
    }
}

/// The size of each rotary table.
pub open spec fn rope_size(c: Config) -> int {
    (c.seq_len * (c.dim / c.n_heads)) / 2
}

/// Every value read after the header, tensor by tensor, in file order.
pub open spec fn read_sizes(c: Config, shared: bool) -> Seq<int> {
    let head = seq![c.vocab_size * c.dim] + layers_sizes(c, c.n_layers as nat) + seq![
        c.dim as int,
        rope_size(c),
        rope_size(c),
    ];
    if shared {
        head
    } else {
        head.push(c.vocab_size * c.dim)
    }
}

/// The tensor sizes fit in `usize`.
pub open spec fn sizes_fit(c: Config) -> bool {
    let kv = (c.dim / c.n_heads) * c.n_kv_heads;
    &&& c.n_heads > 0
    &&& kv <= usize::MAX
    &&& c.vocab_size * c.dim <= usize::MAX
    &&& c.dim * c.dim <= usize::MAX
    &&& c.dim * kv <= usize::MAX
    &&& c.hidden_dim * c.dim <= usize::MAX
    &&& c.dim * c.hidden_dim <= usize::MAX
    &&& c.seq_len * (c.dim / c.n_heads) <= usize::MAX
}

/// Byte offset of read `i`: the byte sizes of the reads before it, after
/// the header.
pub open spec fn read_offset(sizes: Seq<int>, i: int) -> int
    decreases i,
{
    if i <= 0 {
        28
    } else {
        read_offset(sizes, i - 1) + 4 * sizes[i - 1]
    }
}

/// The byte ranges of the reads.
pub open spec fn read_ranges(sizes: Seq<int>) -> Seq<(usize, usize)> {
    Seq::new(sizes.len(), |i: int| (read_offset(sizes, i) as usize, read_offset(sizes, i + 1) as usize))
}

/// Where everything lies in an eager checkpoint.
#[derive(Debug, Clone, PartialEq, Eq)]
pub struct CheckpointLayout {
    pub config: Config,
    pub shared_weights: bool,
    /// The byte range of each read after the header, in file order: the
    /// embedding table, nine tensors per layer, the final norm, the two
    /// rotary tables, and the classifier when it is stored apart.
    pub reads: Vec<(usize, usize)>,
}

/// The header bytes of a checkpoint.
fn header_array(bytes: &[u8]) -> (h: [u8; 28])
    requires
        bytes@.len() >= 28,
    ensures
        h@ == bytes@.subrange(0, 28),
{
    let mut h: [u8; 28] = [0; 28];
    let mut i: usize = 0;
    while i < 28
        invariant
            i <= 28,
            bytes@.len() >= 28,
            forall|j: int| 0 <= j < i ==> #[trigger] h@[j] == bytes@[j],
        decreases 28 - i,
    {
        h[i] = bytes[i];
        i += 1;
    }
    assert(h@ =~= bytes@.subrange(0, 28));
    h
}

/// Locates the tensors of a checkpoint held in `bytes`. Fewer than 28
/// bytes, or bytes that end inside a tensor, give an `UnexpectedEof`
/// error; a header field that is not positive gives `InvalidData`.
pub fn load_checkpoint_layout(bytes: &[u8]) -> (r: std::io::Result<CheckpointLayout>)
    requires
        bytes@.len() >= 28 ==> header_accepted_shape(header_values(bytes@.subrange(0, 28))),
        bytes@.len() >= 28 && fields_positive(header_values(bytes@.subrange(0, 28))) ==> sizes_fit(
            spec_config_of(header_values(bytes@.subrange(0, 28))),
        ),
    ensures
        bytes@.len() < 28 ==> r is Err,
        bytes@.len() >= 28 && !fields_positive(header_values(bytes@.subrange(0, 28))) ==> r is Err,
        bytes@.len() >= 28 && fields_positive(header_values(bytes@.subrange(0, 28))) ==> {
            let values = header_values(bytes@.subrange(0, 28));
            let c = spec_config_of(values);
            let sizes = read_sizes(c, values[5] > 0);
            if read_offset(sizes, sizes.len() as int) <= bytes@.len() {
                r matches Ok(l) && l.config == c && l.shared_weights == (values[5] > 0) && l.reads@
                    == read_ranges(sizes)
            } else {
                r is Err
            }
        },
        r matches Ok(l) ==> reads_placed(l.config, l.shared_weights, l.reads@) && l.reads@.last().1
            <= bytes@.len(),
{
    if bytes.len() < 28 {
        return Err(unexpected_eof("failed to fill whole buffer"));
    }
    let header = header_array(bytes);
    let (config, shared_weights) = match Config::from_bytes(header) {
        Ok(v) => v,
        Err(e) => return Err(e),
    };
    let ghost sizes = read_sizes(config, shared_weights);
    let kv = config.kv_dim();
    let mut counts: Vec<usize> = Vec::new();
    counts.push(config.vocab_size * config.dim);
    let mut layer: usize = 0;
    assert(counts@.map_values(|x: usize| x as int) =~= seq![config.vocab_size * config.dim] + layers_sizes(config, 0));
    while layer < config.n_layers
        invariant
            layer <= config.n_layers,
            sizes_fit(config),
            kv == (config.dim / config.n_heads) * config.n_kv_heads,
            counts@.map_values(|x: usize| x as int) == seq![config.vocab_size * config.dim] + layers_sizes(
                config,
                layer as nat,
            ),
            counts@.len() == 1 + 9 * layer,
        decreases config.n_layers - layer,
    {
        let ghost before = counts@.map_values(|x: usize| x as int);
        counts.push(config.dim);
        counts.push(config.dim * config.dim);
        counts.push(config.dim * kv);
        counts.push(config.dim * kv);
        counts.push(config.dim * config.dim);
        counts.push(config.dim);
        counts.push(config.hidden_dim * config.dim);
        counts.push(config.dim * config.hidden_dim);
        counts.push(config.hidden_dim * config.dim);
        assert(counts@.map_values(|x: usize| x as int) =~= before + layer_sizes(config));
        layer += 1;
    }
    let rope = config.seq_len * config.head_size() / 2;
    counts.push(config.dim);
    counts.push(rope);
    counts.push(rope);
    if !shared_weights {
        counts.push(config.vocab_size * config.dim);
    }
    assert(counts@.map_values(|x: usize| x as int) =~= sizes);
    assert forall|k: int| 0 <= k < sizes.len() implies #[trigger] sizes[k] >= 0 by {
        assert(sizes[k] == counts@[k] as int);
    }
    let mut reads: Vec<(usize, usize)> = Vec::new();
    let mut pos: usize = 28;
    let mut i: usize = 0;
    while i < counts.len()
        invariant
            sizes == counts@.map_values(|x: usize| x as int),
            bytes@.len() >= 28,
            fields_positive(header_values(bytes@.subrange(0, 28))),
            config == spec_config_of(header_values(bytes@.subrange(0, 28))),
            shared_weights == (header_values(bytes@.subrange(0, 28))[5] > 0),
            sizes == read_sizes(config, shared_weights),
            i <= counts@.len(),
            pos == read_offset(sizes, i as int),
            pos <= bytes@.len(),
            reads@ == read_ranges(sizes).take(i as int),
            forall|k: int| 0 <= k < sizes.len() ==> #[trigger] sizes[k] >= 0,
        decreases counts@.len() - i,
    {
        if counts[i] > (bytes.len() - pos) / 4 {
            proof {
                assert(read_offset(sizes, i + 1) > bytes@.len());
                lemma_offsets_grow(sizes, i + 1, sizes.len() as int);
            }
            return Err(unexpected_eof("failed to fill whole buffer"));
        }
        let n = counts[i] * 4;
        reads.push((pos, pos + n));
        assert(read_ranges(sizes).take(i + 1) =~= read_ranges(sizes).take(i as int).push((pos, (pos + n) as usize)));
        pos = pos + n;
        i += 1;
    }
    assert(read_ranges(sizes).take(i as int) =~= read_ranges(sizes));
    proof {
        reads_follow_the_file(config, shared_weights, bytes@.len() as int);
        lemma_offsets_within(sizes, bytes@.len() as int);
        assert(reads@.last() == read_ranges(sizes)[sizes.len() - 1]);
    }
    Ok(CheckpointLayout { config, shared_weights, reads })
}

/// Offsets never decrease.
proof fn lemma_offsets_grow(sizes: Seq<int>, i: int, j: int)
    requires
        0 <= i <= j <= sizes.len(),
        forall|k: int| 0 <= k < sizes.len() ==> #[trigger] sizes[k] >= 0,
    ensures
        read_offset(sizes, i) <= read_offset(sizes, j),
    decreases j - i,
{
    if i < j {
        lemma_offsets_grow(sizes, i, j - 1);
    }
}

/// The byte length of read `k`.
pub open spec fn read_len(reads: Seq<(usize, usize)>, k: int) -> int {
    reads[k].1 - reads[k].0
}

/// Whether `reads` are the byte ranges of the file's reads: back to back
/// from byte 28, the embedding table (`vocab_size * dim` values), then per
/// layer the attention norm (`dim`), `wq` (`dim * dim`), `wk` and `wv`
/// (`dim * kv_dim`), `wo` (`dim * dim`), the feed-forward norm (`dim`),
/// `w1` (`hidden_dim * dim`), `w2` (`dim * hidden_dim`), `w3`
/// (`hidden_dim * dim`), then the final norm (`dim`), two rotary tables
/// (`seq_len * head_dim / 2` each) and, unless shared, the classifier
/// (`vocab_size * dim`); four bytes per value.
pub open spec fn reads_placed(c: Config, shared: bool, reads: Seq<(usize, usize)>) -> bool {
    let nl = c.n_layers as int;
    let kv = (c.dim / c.n_heads) * c.n_kv_heads;
    let rope = (c.seq_len * (c.dim / c.n_heads)) / 2;
    let tail = 1 + 9 * nl;
    &&& reads.len() == tail + 3 + (if shared {
        0int
    } else {
        1int
    })
    &&& reads[0].0 == 28
    &&& forall|k: int| 0 < k < reads.len() ==> #[trigger] reads[k].0 == reads[k - 1].1
    &&& read_len(reads, 0) == 4 * (c.vocab_size * c.dim)
    &&& forall|i: int|
        0 <= i < nl ==> {
            &&& #[trigger] read_len(reads, 1 + 9 * i) == 4 * c.dim
            &&& read_len(reads, 2 + 9 * i) == 4 * (c.dim * c.dim)
            &&& read_len(reads, 3 + 9 * i) == 4 * (c.dim * kv)
            &&& read_len(reads, 4 + 9 * i) == 4 * (c.dim * kv)
            &&& read_len(reads, 5 + 9 * i) == 4 * (c.dim * c.dim)
            &&& read_len(reads, 6 + 9 * i) == 4 * c.dim
            &&& read_len(reads, 7 + 9 * i) == 4 * (c.hidden_dim * c.dim)
            &&& read_len(reads, 8 + 9 * i) == 4 * (c.dim * c.hidden_dim)
            &&& read_len(reads, 9 + 9 * i) == 4 * (c.hidden_dim * c.dim)
        }
    &&& read_len(reads, tail) == 4 * c.dim
    &&& read_len(reads, tail + 1) == 4 * rope
    &&& read_len(reads, tail + 2) == 4 * rope
    &&& !shared ==> read_len(reads, tail + 3) == 4 * (c.vocab_size * c.dim)
}

/// The tensors of the first `k` layers: nine per layer, each layer's in
/// the same order.
proof fn lemma_layers_sizes(c: Config, k: nat)
    ensures
        layers_sizes(c, k).len() == 9 * k,
        forall|i: int, j: int|
            0 <= i < k && 0 <= j < 9 ==> #[trigger] layers_sizes(c, k)[9 * i + j] == layer_sizes(c)[j],
    decreases k,
{
    if k > 0 {
        lemma_layers_sizes(c, (k - 1) as nat);
        let prev = layers_sizes(c, (k - 1) as nat);
        assert forall|i: int, j: int| 0 <= i < k && 0 <= j < 9 implies #[trigger] layers_sizes(c, k)[9 * i + j]
            == layer_sizes(c)[j] by {
            if i < k - 1 {
                assert(layers_sizes(c, k)[9 * i + j] == prev[9 * i + j]);
            } else {
                assert(layers_sizes(c, k)[9 * i + j] == layer_sizes(c)[9 * i + j - 9 * (k - 1)]);
            }
        }
    }
}

/// Each offset is the previous one plus four bytes per value.
proof fn lemma_offsets_within(sizes: Seq<int>, len: int)
    requires
        forall|k: int| 0 <= k < sizes.len() ==> #[trigger] sizes[k] >= 0,
        read_offset(sizes, sizes.len() as int) <= len <= usize::MAX,
    ensures
        forall|i: int| 0 <= i <= sizes.len() ==> 28 <= #[trigger] read_offset(sizes, i) <= len,
{
    assert forall|i: int| 0 <= i <= sizes.len() implies 28 <= #[trigger] read_offset(sizes, i) <= len by {
        lemma_offsets_grow(sizes, i, sizes.len() as int);
        lemma_offsets_grow(sizes, 0, i);
    }
}

/// Back-to-back ranges from byte 28, each four bytes per value.
proof fn lemma_ranges_back_to_back(sizes: Seq<int>, len: int)
    requires
        forall|k: int| 0 <= k < sizes.len() ==> #[trigger] sizes[k] >= 0,
        read_offset(sizes, sizes.len() as int) <= len <= usize::MAX,
    ensures
        read_ranges(sizes).len() == sizes.len(),
        sizes.len() > 0 ==> read_ranges(sizes)[0].0 == 28,
        forall|k: int| 0 <= k < sizes.len() ==> #[trigger] read_len(read_ranges(sizes), k) == 4 * sizes[k],
        forall|k: int| 0 < k < sizes.len() ==> #[trigger] read_ranges(sizes)[k].0 == read_ranges(sizes)[k - 1].1,
{
    lemma_offsets_within(sizes, len);
    let reads = read_ranges(sizes);
    assert forall|k: int| 0 <= k < sizes.len() implies #[trigger] read_len(reads, k) == 4 * sizes[k] by {
        assert(28 <= read_offset(sizes, k) <= len);
        assert(28 <= read_offset(sizes, k + 1) <= len);
    }
    assert forall|k: int| 0 < k < sizes.len() implies #[trigger] reads[k].0 == reads[k - 1].1 by {
        assert(28 <= read_offset(sizes, k) <= len);
    }
}

/// The read sizes of a config, one by one, and none negative.
proof fn lemma_read_sizes(c: Config, shared: bool)
    requires
        c.n_heads > 0,
    ensures
        ({
            let sizes = read_sizes(c, shared);
            let nl = c.n_layers as int;
            let kv = (c.dim / c.n_heads) * c.n_kv_heads;
            let rope = (c.seq_len * (c.dim / c.n_heads)) / 2;
            let tail = 1 + 9 * nl;
            &&& sizes.len() == tail + 3 + if shared {
                0int
            } else {
                1int
            }
            &&& forall|k: int| 0 <= k < sizes.len() ==> #[trigger] sizes[k] >= 0
            &&& sizes[0] == c.vocab_size * c.dim
            &&& forall|i: int|
                0 <= i < nl ==> {
                    &&& #[trigger] sizes[1 + 9 * i] == c.dim
                    &&& sizes[2 + 9 * i] == c.dim * c.dim
                    &&& sizes[3 + 9 * i] == c.dim * kv
                    &&& sizes[4 + 9 * i] == c.dim * kv
                    &&& sizes[5 + 9 * i] == c.dim * c.dim
                    &&& sizes[6 + 9 * i] == c.dim
                    &&& sizes[7 + 9 * i] == c.hidden_dim * c.dim
                    &&& sizes[8 + 9 * i] == c.dim * c.hidden_dim
                    &&& sizes[9 + 9 * i] == c.hidden_dim * c.dim
                }
            &&& sizes[tail] == c.dim
            &&& sizes[tail + 1] == rope
            &&& sizes[tail + 2] == rope
            &&& !shared ==> sizes[tail + 3] == c.vocab_size * c.dim
        }),
{
    let sizes = read_sizes(c, shared);
    let nl = c.n_layers as nat;
    let (v, d, h, s, nh, kvh) = (c.vocab_size as int, c.dim as int, c.hidden_dim as int, c.seq_len as int,
        c.n_heads as int, c.n_kv_heads as int);
    let hd = d / nh;
    let kv = hd * kvh;
    assert(hd >= 0 && kv >= 0 && v * d >= 0 && d * d >= 0 && d * kv >= 0 && h * d >= 0 && d * h >= 0 && s * hd
        >= 0) by (nonlinear_arith)
        requires
            v >= 0,
            d >= 0,
            h >= 0,
            s >= 0,
            nh > 0,
            kvh >= 0,
            hd == d / nh,
            kv == hd * kvh,
    ;
    lemma_layers_sizes(c, nl);
    let ls = layers_sizes(c, nl);
    let tail: int = 1 + 9 * (nl as int);
    assert forall|k: int| 0 <= k < sizes.len() implies #[trigger] sizes[k] >= 0 by {
        if 1 <= k < tail {
            let i = (k - 1) / 9;
            let j = (k - 1) % 9;
            assert(k - 1 == 9 * i + j);
            assert(sizes[k] == ls[9 * i + j]);
        }
    }
    assert forall|i: int| 0 <= i < nl implies {
        &&& #[trigger] sizes[1 + 9 * i] == c.dim
        &&& sizes[2 + 9 * i] == c.dim * c.dim
        &&& sizes[3 + 9 * i] == c.dim * kv
        &&& sizes[4 + 9 * i] == c.dim * kv
        &&& sizes[5 + 9 * i] == c.dim * c.dim
        &&& sizes[6 + 9 * i] == c.dim
        &&& sizes[7 + 9 * i] == c.hidden_dim * c.dim
        &&& sizes[8 + 9 * i] == c.dim * c.hidden_dim
        &&& sizes[9 + 9 * i] == c.hidden_dim * c.dim
    } by {
        assert(ls[9 * i + 0] == layer_sizes(c)[0]);
        assert(ls[9 * i + 1] == layer_sizes(c)[1]);
        assert(ls[9 * i + 2] == layer_sizes(c)[2]);
        assert(ls[9 * i + 3] == layer_sizes(c)[3]);
        assert(ls[9 * i + 4] == layer_sizes(c)[4]);
        assert(ls[9 * i + 5] == layer_sizes(c)[5]);
        assert(ls[9 * i + 6] == layer_sizes(c)[6]);
        assert(ls[9 * i + 7] == layer_sizes(c)[7]);
        assert(ls[9 * i + 8] == layer_sizes(c)[8]);
        assert(sizes[1 + 9 * i] == ls[9 * i + 0]);
        assert(sizes[2 + 9 * i] == ls[9 * i + 1]);
        assert(sizes[3 + 9 * i] == ls[9 * i + 2]);
        assert(sizes[4 + 9 * i] == ls[9 * i + 3]);
        assert(sizes[5 + 9 * i] == ls[9 * i + 4]);
        assert(sizes[6 + 9 * i] == ls[9 * i + 5]);
        assert(sizes[7 + 9 * i] == ls[9 * i + 6]);
        assert(sizes[8 + 9 * i] == ls[9 * i + 7]);
        assert(sizes[9 + 9 * i] == ls[9 * i + 8]);
    }
}

/// The reads of a checkpoint that holds them all lie as the file lays
/// them out.
#[verifier::spinoff_prover]
pub proof fn reads_follow_the_file(c: Config, shared: bool, len: int)
    requires
        c.n_heads > 0,
        read_offset(read_sizes(c, shared), read_sizes(c, shared).len() as int) <= len <= usize::MAX,
    ensures
        reads_placed(c, shared, read_ranges(read_sizes(c, shared))),
{
    let sizes = read_sizes(c, shared);
    lemma_read_sizes(c, shared);
    lemma_ranges_back_to_back(sizes, len);
    let reads = read_ranges(sizes);
    let nl = c.n_layers as int;
    let tail: int = 1 + 9 * nl;
    assert forall|i: int| 0 <= i < nl implies {
        &&& #[trigger] read_len(reads, 1 + 9 * i) == 4 * c.dim
        &&& read_len(reads, 2 + 9 * i) == 4 * (c.dim * c.dim)
        &&& read_len(reads, 3 + 9 * i) == 4 * (c.dim * ((c.dim / c.n_heads) * c.n_kv_heads))
        &&& read_len(reads, 4 + 9 * i) == 4 * (c.dim * ((c.dim / c.n_heads) * c.n_kv_heads))
        &&& read_len(reads, 5 + 9 * i) == 4 * (c.dim * c.dim)
        &&& read_len(reads, 6 + 9 * i) == 4 * c.dim
        &&& read_len(reads, 7 + 9 * i) == 4 * (c.hidden_dim * c.dim)
        &&& read_len(reads, 8 + 9 * i) == 4 * (c.dim * c.hidden_dim)
        &&& read_len(reads, 9 + 9 * i) == 4 * (c.hidden_dim * c.dim)
    } by {
        assert(sizes[1 + 9 * i] == c.dim);
        assert(read_len(reads, 1 + 9 * i) == 4 * sizes[1 + 9 * i]);
        assert(read_len(reads, 2 + 9 * i) == 4 * sizes[2 + 9 * i]);
        assert(read_len(reads, 3 + 9 * i) == 4 * sizes[3 + 9 * i]);
        assert(read_len(reads, 4 + 9 * i) == 4 * sizes[4 + 9 * i]);
        assert(read_len(reads, 5 + 9 * i) == 4 * sizes[5 + 9 * i]);
        assert(read_len(reads, 6 + 9 * i) == 4 * sizes[6 + 9 * i]);
        assert(read_len(reads, 7 + 9 * i) == 4 * sizes[7 + 9 * i]);
        assert(read_len(reads, 8 + 9 * i) == 4 * sizes[8 + 9 * i]);
        assert(read_len(reads, 9 + 9 * i) == 4 * sizes[9 + 9 * i]);
    }
    assert(read_len(reads, 0) == 4 * sizes[0]);
    assert(read_len(reads, tail) == 4 * sizes[tail]);
    assert(read_len(reads, tail + 1) == 4 * sizes[tail + 1]);
    assert(read_len(reads, tail + 2) == 4 * sizes[tail + 2]);
    if !shared {
        assert(read_len(reads, tail + 3) == 4 * sizes[tail + 3]);
    }
    assert(reads_placed(c, shared, reads));
}

} // verus!
