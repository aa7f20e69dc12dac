//! The mapped checkpoint: a 28-byte header of seven little-endian `i32`
//! values, then every weight tensor as consecutive `f32` values.

use vstd::prelude::*;
use crate::le_bytes::{i32_at, spec_i32_at};
use crate::io_error::unexpected_eof;
use crate::mapped::config::Config;

verus! {

/// Number of header fields.
pub const CONFIG_FIELDS: usize = 7;

/// Size in bytes of the header.
pub const CONFIG_BYTES: usize = 28;

#[verifier::external_type_specification]
#[verifier::external_body]
pub struct ExMmap(memmap2::Mmap);

/// Calls `<memmap2::Mmap as Deref>::deref`: the bytes of the mapped file.
/// Nothing is stated of them: they are what the file holds on disk, and two
/// calls may see different contents if the file changes.
#[verifier::external_body]
fn mapped_bytes(mmap: &memmap2::Mmap) -> &[u8] {
    std::ops::Deref::deref(mmap)
}

/// `i32::unsigned_abs` as a mathematical integer.
pub open spec fn spec_unsigned_abs(v: int) -> int {
    if v < 0 {
        -v
    } else {
        v
    }
}

/// The config that a header describes: each field cast from `i32` to
/// `usize`, the vocabulary size by its magnitude.
pub open spec fn spec_header_config(bytes: Seq<u8>) -> Config {
    Config {
        dim: spec_i32_at(bytes, 0) as usize,
        hidden_dim: spec_i32_at(bytes, 4) as usize,
        n_layers: spec_i32_at(bytes, 8) as usize,
        n_heads: spec_i32_at(bytes, 12) as usize,
        n_kv_heads: spec_i32_at(bytes, 16) as usize,
        vocab_size: spec_unsigned_abs(spec_i32_at(bytes, 20)) as usize,
        seq_len: spec_i32_at(bytes, 24) as usize,
    }
}

/// A positive vocabulary size marks a classifier shared with the embedding
/// table.
pub open spec fn spec_header_shared(bytes: Seq<u8>) -> bool {
    spec_i32_at(bytes, 20) > 0
}

/// Reads the header at the front of a checkpoint. Fewer than 28 bytes give
/// an `UnexpectedEof` error; no field is checked.
pub fn read_config(bytes: &[u8]) -> (r: std::io::Result<(Config, bool)>)
    ensures
        r is Err <==> bytes@.len() < 28,
        r matches Ok((c, shared)) ==> c == spec_header_config(bytes@) && shared
            == spec_header_shared(bytes@),
{
    if bytes.len() < CONFIG_BYTES {
        return Err(unexpected_eof("checkpoint is smaller than config header"));
    }
    let dim = i32_at(bytes, 0);
    let hidden_dim = i32_at(bytes, 4);
    let n_layers = i32_at(bytes, 8);
    let n_heads = i32_at(bytes, 12);
    let n_kv_heads = i32_at(bytes, 16);
    let vocab = i32_at(bytes, 20);
    let seq_len = i32_at(bytes, 24);
    let shared_weights = vocab > 0;
    let vocab_size: usize = if vocab < 0 {
        (-(vocab as i64)) as usize
    } else {
        vocab as usize
    };
    Ok(
        (
            Config {
                dim: dim as usize,
                hidden_dim: hidden_dim as usize,
                n_layers: n_layers as usize,
                n_heads: n_heads as usize,
                n_kv_heads: n_kv_heads as usize,
                vocab_size,
                seq_len: seq_len as usize,
            },
            shared_weights,
        ),
    )
}

/// Where a tensor lies among the `f32` values that follow the header.
#[derive(Debug, Clone, Copy, PartialEq, Eq)]
pub struct Span {
    pub start: usize,
    pub len: usize,
}

/// Where each weight tensor lies. The classifier either has a span of its
/// own or is the embedding table.
#[derive(Debug, Clone, Copy, PartialEq, Eq)]
pub struct WeightLayout {
    pub token_embedding_table: Span,
    pub rms_att_weight: Span,
    pub wq: Span,
    pub wk: Span,
    pub wv: Span,
    pub wo: Span,
    pub rms_ffn_weight: Span,
    pub w1: Span,
    pub w2: Span,
    pub w3: Span,
    pub rms_final_weight: Span,
    pub wcls: Span,
}

/// Why the weights cannot be laid out.
#[derive(Debug, Clone, Copy, PartialEq, Eq)]
pub enum LayoutError {
    /// The weight section is not a whole number of `f32` values.
    Misaligned,
    /// An end offset does not fit in `usize`.
    SizeOverflow,
    /// The checkpoint ends before every tensor was read.
    Truncated,
}

/// The products that sizing the tensors computes, each within `usize`.
pub open spec fn layout_fits(c: Config) -> bool {
    &&& c.n_heads > 0
    &&& c.dim * c.n_kv_heads <= usize::MAX
    &&& c.vocab_size * c.dim <= usize::MAX
    &&& c.n_layers * c.dim <= usize::MAX
    &&& c.n_layers * c.dim * c.dim <= usize::MAX
    &&& c.n_layers * c.dim * ((c.dim * c.n_kv_heads) / (c.n_heads as int)) <= usize::MAX
    &&& c.n_layers * c.dim * c.hidden_dim <= usize::MAX
    &&& c.n_layers * c.hidden_dim <= usize::MAX
    &&& c.n_layers * c.hidden_dim * c.dim <= usize::MAX
    &&& c.seq_len * (c.dim / c.n_heads) <= usize::MAX
}

/// The sizes of the tensors in file order: embedding table, the per-layer
/// tensors, final norm, the two RoPE tables (skipped), and the classifier
/// when it is not shared.
pub open spec fn tensor_sizes(c: Config, shared: bool) -> Seq<int> {
    let kv_dim = (c.dim * c.n_kv_heads) / (c.n_heads as int);
    let rope = c.seq_len * (c.dim / c.n_heads) as int / 2;
    let common = seq![
        c.vocab_size * c.dim,
        c.n_layers * c.dim,
        c.n_layers * c.dim * c.dim,
        c.n_layers * c.dim * kv_dim,
        c.n_layers * c.dim * kv_dim,
        c.n_layers * c.dim * c.dim,
        c.n_layers * c.dim,
        c.n_layers * c.dim * c.hidden_dim,
        c.n_layers * c.hidden_dim * c.dim,
        c.n_layers * c.dim * c.hidden_dim,
        c.dim as int,
        rope,
        rope,
    ];
    if shared {
        common
    } else {
        common.push(c.vocab_size * c.dim)
    }
}

/// Taking tensors of the given sizes in turn from offset `offset` of `n`
/// values: the start of each, or the first failure.
pub open spec fn cursor_run(sizes: Seq<int>, offset: int, n: int) -> Result<Seq<int>, LayoutError>
    decreases sizes.len(),
{
    if sizes.len() == 0 {
        Ok(Seq::empty())
    } else if offset + sizes[0] > usize::MAX {
        Err(LayoutError::SizeOverflow)
    } else if offset + sizes[0] > n {
        Err(LayoutError::Truncated)
    } else {
        match cursor_run(sizes.drop_first(), offset + sizes[0], n) {
            Ok(rest) => Ok(seq![offset].add(rest)),
            Err(e) => Err(e),
        }
    }
}

/// The layout that the starts of the tensors give.
pub open spec fn layout_of(c: Config, shared: bool, starts: Seq<int>) -> WeightLayout {
    let sizes = tensor_sizes(c, shared);
    let span = |i: int| Span { start: starts[i] as usize, len: sizes[i] as usize };
    WeightLayout {
        token_embedding_table: span(0),
        rms_att_weight: span(1),
        wq: span(2),
        wk: span(3),
        wv: span(4),
        wo: span(5),
        rms_ffn_weight: span(6),
        w1: span(7),
        w2: span(8),
        w3: span(9),
        rms_final_weight: span(10),
        wcls: if shared {
            span(0)
        } else {
            span(13)
        },
    }
}

/// The layout of the weights of `c` among `n` values, or why there is none.
pub open spec fn spec_weight_layout(c: Config, shared: bool, n: int) -> Result<WeightLayout, LayoutError> {
    match cursor_run(tensor_sizes(c, shared), 0, n) {
        Ok(starts) => Ok(layout_of(c, shared, starts)),
        Err(e) => Err(e),
    }
}

/// A read position among `n` values.
struct WeightCursor {
    offset: usize,
    n: usize,
}

impl WeightCursor {
    /// Takes the next `len` values: their start, or the failure.
    fn take(&mut self, len: usize) -> (r: Result<usize, LayoutError>)
        requires
            old(self).offset <= old(self).n,
        ensures
            final(self).n == old(self).n,
            final(self).offset <= final(self).n,
            old(self).offset + len > usize::MAX ==> r == Err::<usize, LayoutError>(LayoutError::SizeOverflow),
            old(self).offset + len <= usize::MAX && old(self).offset + len > old(self).n ==> r == Err::<
                usize,
                LayoutError,
            >(LayoutError::Truncated),
            old(self).offset + len <= old(self).n ==> r == Ok::<usize, LayoutError>(old(self).offset)
                && final(self).offset == old(self).offset + len,
    {
        let end = match self.offset.checked_add(len) {
            Some(end) => end,
            None => return Err(LayoutError::SizeOverflow),
        };
        if end > self.n {
            return Err(LayoutError::Truncated);
        }
        let start = self.offset;
        self.offset = end;
        Ok(start)
    }
}

/// Lays out the weights of `config` among `n_floats` values, tensor after
/// tensor in file order.
pub fn weight_layout(config: &Config, shared_weights: bool, n_floats: usize) -> (r: Result<
    WeightLayout,
    LayoutError,
>)
    requires
        layout_fits(*config),
    ensures
        r == spec_weight_layout(*config, shared_weights, n_floats as int),
        r matches Ok(l) ==> placed_as_in_file(*config, shared_weights, n_floats as int, l),
{
    proof {
        layout_follows_the_file(*config, shared_weights, n_floats as int);
    }
    let head_size = config.dim / config.n_heads;
    let n_layers = config.n_layers;
    let dim = config.dim;
    let kv_dim = (config.dim * config.n_kv_heads) / config.n_heads;
    assert(config.seq_len * head_size <= usize::MAX);
    let rope_cache = config.seq_len * head_size / 2;
    let mut sizes: Vec<usize> = vec![
        config.vocab_size * dim,
        n_layers * dim,
        n_layers * dim * dim,
        n_layers * dim * kv_dim,
        n_layers * dim * kv_dim,
        n_layers * dim * dim,
        n_layers * dim,
        n_layers * dim * config.hidden_dim,
        n_layers * config.hidden_dim * dim,
        n_layers * dim * config.hidden_dim,
        dim,
        rope_cache,
        rope_cache,
    ];
    if !shared_weights {
        sizes.push(config.vocab_size * dim);
    }
    let ghost expected = tensor_sizes(*config, shared_weights);
    assert(sizes@.map_values(|s: usize| s as int) =~= expected);
    let mut cursor = WeightCursor { offset: 0, n: n_floats };
    let mut starts: Vec<usize> = Vec::new();
    assert(expected.skip(0) =~= expected);
    assert(starts@.map_values(|s: usize| s as int) =~= Seq::<int>::empty());
    proof {
        if let Ok(all) = cursor_run(expected, 0, n_floats as int) {
            assert(Seq::<int>::empty().add(all) =~= all);
        }
    }
    let mut i: usize = 0;
    while i < sizes.len()
        invariant
            i <= sizes.len(),
            sizes@.map_values(|s: usize| s as int) == expected,
            expected == tensor_sizes(*config, shared_weights),
            cursor.n == n_floats,
            cursor.offset <= n_floats,
            starts@.len() == i,
            cursor_run(expected, 0, n_floats as int) == match cursor_run(
                expected.skip(i as int),
                cursor.offset as int,
                n_floats as int,
            ) {
                Ok(rest) => Ok(starts@.map_values(|s: usize| s as int).add(rest)),
                Err(e) => Err(e),
            },
        decreases sizes.len() - i,
    {
        let ghost tail = expected.skip(i as int);
        assert(tail.drop_first() =~= expected.skip(i + 1));
        assert(tail[0] == sizes@[i as int] as int);
        let ghost prev = cursor.offset as int;
        let start = match cursor.take(sizes[i]) {
            Ok(start) => start,
            Err(e) => {
                assert(cursor_run(tail, prev, n_floats as int) == Err::<Seq<int>, LayoutError>(e));
                return Err(e);
            },
        };
        let ghost before = starts@.map_values(|s: usize| s as int);
        starts.push(start);
        assert(starts@.map_values(|s: usize| s as int) =~= before.push(start as int));
        proof {
            let run = cursor_run(expected.skip(i + 1), cursor.offset as int, n_floats as int);
            if let Ok(rest) = run {
                assert(before.add(seq![start as int].add(rest)) =~= before.push(start as int).add(rest));
            }
        }
        i += 1;
    }
    assert(expected.skip(i as int) =~= Seq::<int>::empty());
    let ghost all = starts@.map_values(|s: usize| s as int);
    assert(all.add(Seq::<int>::empty()) =~= all);
    let span = |k: usize| -> (s: Span)
        requires
            k < sizes@.len(),
            k < starts@.len(),
        ensures
            s == (Span { start: starts@[k as int], len: sizes@[k as int] }),
    { Span { start: starts[k], len: sizes[k] } };
    let token_embedding_table = span(0);
    let layout = WeightLayout {
        token_embedding_table,
        rms_att_weight: span(1),
        wq: span(2),
        wk: span(3),
        wv: span(4),
        wo: span(5),
        rms_ffn_weight: span(6),
        w1: span(7),
        w2: span(8),
        w3: span(9),
        rms_final_weight: span(10),
        wcls: if shared_weights {
            token_embedding_table
        } else {
            span(13)
        },
    };
    Ok(layout)
}

/// The layout of a checkpoint of `len` bytes: the weight section after
/// the header must be a whole number of `f32` values, and then the tensors
/// are taken from it in file order.
pub open spec fn spec_layout_for_len(c: Config, shared: bool, len: int) -> Result<
    WeightLayout,
    LayoutError,
> {
    if len < 28 || (len - 28) % 4 != 0 {
        Err(LayoutError::Misaligned)
    } else {
        spec_weight_layout(c, shared, (len - 28) / 4)
    }
}

/// Where `cursor_run` puts the tensors: the first at `offset`, each next
/// one where the previous ends, all within `n` values and `usize`.
proof fn lemma_cursor_run(sizes: Seq<int>, offset: int, n: int)
    requires
        offset >= 0,
        forall|k: int| 0 <= k < sizes.len() ==> #[trigger] sizes[k] >= 0,
    ensures
        cursor_run(sizes, offset, n) matches Ok(st) ==> {
            &&& st.len() == sizes.len()
            &&& st.len() > 0 ==> st[0] == offset
            &&& forall|k: int| 0 <= k < st.len() ==> offset <= #[trigger] st[k] && st[k] + sizes[k] <= n
                && st[k] + sizes[k] <= usize::MAX
            &&& forall|k: int| 0 < k < st.len() ==> #[trigger] st[k] == st[k - 1] + sizes[k - 1]
        },
    decreases sizes.len(),
{
    if sizes.len() > 0 && offset + sizes[0] <= usize::MAX && offset + sizes[0] <= n {
        let rest = sizes.drop_first();
        lemma_cursor_run(rest, offset + sizes[0], n);
        if let Ok(r) = cursor_run(rest, offset + sizes[0], n) {
            let st = seq![offset].add(r);
            assert forall|k: int| 0 < k < st.len() implies #[trigger] st[k] == st[k - 1] + sizes[k - 1] by {
                assert(st[k] == r[k - 1]);
                if k > 1 {
                    assert(st[k - 1] == r[k - 2]);
                }
            }
            assert forall|k: int| 0 <= k < st.len() implies offset <= #[trigger] st[k] && st[k] + sizes[k]
                <= n && st[k] + sizes[k] <= usize::MAX by {
                if k > 0 {
                    assert(st[k] == r[k - 1]);
                    assert(sizes[k] == rest[k - 1]);
                }
            }
        }
    }
}

/// Whether `l` places the weights of `c` among `n` values as the file
/// lays them out: each tensor sized by the config (the RMS weights
/// `n_layers * dim`, `wq` and `wo` `n_layers * dim * dim`, `wk` and `wv`
/// `n_layers * dim * kv_dim`, the feed-forward matrices
/// `n_layers * dim * hidden_dim`, the final norm `dim`), back to back from
/// value 0, then two RoPE tables of `seq_len * head_dim / 2` values that
/// are skipped, then the classifier unless it is the embedding table; all
/// within the `n` values.
pub open spec fn placed_as_in_file(c: Config, shared: bool, n: int, l: WeightLayout) -> bool {
    let kv = (c.dim * c.n_kv_heads) / (c.n_heads as int);
    let rope = c.seq_len * (c.dim / c.n_heads) as int / 2;
    let end = |s: Span| s.start + s.len;
    &&& l.token_embedding_table == (Span { start: 0, len: (c.vocab_size * c.dim) as usize })
    &&& l.token_embedding_table.len == c.vocab_size * c.dim
    &&& l.rms_att_weight.start == end(l.token_embedding_table) && l.rms_att_weight.len == c.n_layers * c.dim
    &&& l.wq.start == end(l.rms_att_weight) && l.wq.len == c.n_layers * c.dim * c.dim
    &&& l.wk.start == end(l.wq) && l.wk.len == c.n_layers * c.dim * kv
    &&& l.wv.start == end(l.wk) && l.wv.len == c.n_layers * c.dim * kv
    &&& l.wo.start == end(l.wv) && l.wo.len == c.n_layers * c.dim * c.dim
    &&& l.rms_ffn_weight.start == end(l.wo) && l.rms_ffn_weight.len == c.n_layers * c.dim
    &&& l.w1.start == end(l.rms_ffn_weight) && l.w1.len == c.n_layers * c.dim * c.hidden_dim
    &&& l.w2.start == end(l.w1) && l.w2.len == c.n_layers * c.hidden_dim * c.dim
    &&& l.w3.start == end(l.w2) && l.w3.len == c.n_layers * c.dim * c.hidden_dim
    &&& l.rms_final_weight.start == end(l.w3) && l.rms_final_weight.len == c.dim
    &&& end(l.rms_final_weight) + 2 * rope <= n
    &&& if shared {
        l.wcls == l.token_embedding_table
    } else {
        &&& l.wcls.start == end(l.rms_final_weight) + 2 * rope
        &&& l.wcls.len == c.vocab_size * c.dim
        &&& end(l.wcls) <= n
    }
}

/// A layout, when there is one, places every tensor as the file does.
pub proof fn layout_follows_the_file(c: Config, shared: bool, n: int)
    requires
        layout_fits(c),
    ensures
        spec_weight_layout(c, shared, n) matches Ok(l) ==> placed_as_in_file(c, shared, n, l),
{
    let sizes = tensor_sizes(c, shared);
    let (v, d, l, h, s, kvh, nh) = (c.vocab_size as int, c.dim as int, c.n_layers as int, c.hidden_dim as int,
        c.seq_len as int, c.n_kv_heads as int, c.n_heads as int);
    let kv = (d * kvh) / nh;
    assert(v * d >= 0 && l * d >= 0 && l * d * d >= 0 && l * d * h >= 0 && l * h * d >= 0 && d * kvh >= 0)
        by (nonlinear_arith)
        requires
            v >= 0,
            d >= 0,
            l >= 0,
            h >= 0,
            kvh >= 0,
    ;
    assert(kv >= 0) by (nonlinear_arith)
        requires
            d * kvh >= 0,
            nh > 0,
            kv == (d * kvh) / nh,
    ;
    assert(l * d * kv >= 0) by (nonlinear_arith)
        requires
            l * d >= 0,
            kv >= 0,
    ;
    let hd = d / nh;
    assert(s * hd >= 0) by (nonlinear_arith)
        requires
            s >= 0,
            d >= 0,
            nh > 0,
            hd == d / nh,
    ;
    assert(forall|k: int| 0 <= k < sizes.len() ==> #[trigger] sizes[k] >= 0);
    lemma_cursor_run(sizes, 0, n);
    if let Ok(st) = cursor_run(sizes, 0, n) {
        let lay = layout_of(c, shared, st);
        assert(st[1] == st[0] + sizes[0]);
        assert(st[2] == st[1] + sizes[1]);
        assert(st[3] == st[2] + sizes[2]);
        assert(st[4] == st[3] + sizes[3]);
        assert(st[5] == st[4] + sizes[4]);
        assert(st[6] == st[5] + sizes[5]);
        assert(st[7] == st[6] + sizes[6]);
        assert(st[8] == st[7] + sizes[7]);
        assert(st[9] == st[8] + sizes[8]);
        assert(st[10] == st[9] + sizes[9]);
        assert(st[11] == st[10] + sizes[10]);
        assert(st[12] == st[11] + sizes[11]);
        assert(st[12] + sizes[12] <= n);
        if !shared {
            assert(st[13] == st[12] + sizes[12]);
            assert(st[13] + sizes[13] <= n);
        }
        assert(placed_as_in_file(c, shared, n, lay));
    }
}

/// Lays out a checkpoint of `byte_len` bytes (header included).
pub fn layout_for_len(config: &Config, shared_weights: bool, byte_len: usize) -> (r: Result<
    WeightLayout,
    LayoutError,
>)
    requires
        layout_fits(*config),
    ensures
        r == spec_layout_for_len(*config, shared_weights, byte_len as int),
        r matches Ok(l) ==> placed_as_in_file(*config, shared_weights, (byte_len - 28) / 4, l),
{
    if byte_len < CONFIG_BYTES || (byte_len - CONFIG_BYTES) % 4 != 0 {
        return Err(LayoutError::Misaligned);
    }
    weight_layout(config, shared_weights, (byte_len - CONFIG_BYTES) / 4)
}

/// A memory-mapped checkpoint and the header read from it.
#[derive(Debug)]
pub struct Checkpoint {
    mmap: memmap2::Mmap,
    config: Config,
    shared_weights: bool,
}

impl Checkpoint {
    /// Reads the header of a mapped checkpoint. The mapping is taken over,
    /// so the weights it holds live as long as the checkpoint.
    pub fn from_mmap(mmap: memmap2::Mmap) -> (r: std::io::Result<Self>)
        ensures
            exists|b: Seq<u8>| Self::reads_header(r, b),
            r matches Ok(c) ==> c.spec_mmap() == mmap,
    {
        let bytes = mapped_bytes(&mmap);
        let ghost seen = bytes@;
        let r = match read_config(bytes) {
            Ok((config, shared_weights)) => Ok(Checkpoint { mmap, config, shared_weights }),
            Err(e) => Err(e),
        };
        assert(Self::reads_header(r, seen));
        r
    }

    /// Whether `r` is what reading the header of a mapping that holds `b`
    /// gives: an error when `b` is shorter than the header, else the
    /// checkpoint with the config and sharing flag that the header describes.
    pub open spec fn reads_header(r: std::io::Result<Self>, b: Seq<u8>) -> bool {
        &&& r is Ok <==> b.len() >= 28
        &&& r matches Ok(c) ==> c.spec_config() == spec_header_config(b) && c.spec_shared()
            == spec_header_shared(b)
    }

    pub closed spec fn spec_config(&self) -> Config {
        self.config
    }

    pub closed spec fn spec_shared(&self) -> bool {
        self.shared_weights
    }

    pub closed spec fn spec_mmap(&self) -> memmap2::Mmap {
        self.mmap
    }

    /// The header of the checkpoint.
    pub fn config(&self) -> (c: &Config)
        ensures
            *c == self.spec_config(),
    {
        &self.config
    }

    /// Whether the classifier is the embedding table.
    pub fn shares_classifier(&self) -> (b: bool)
        ensures
            b == self.spec_shared(),
    {
        self.shared_weights
    }

    /// The mapping that holds the weights.
    pub fn mmap(&self) -> (m: &memmap2::Mmap)
        ensures
            *m == self.spec_mmap(),
    {
        &self.mmap
    }

    /// Lays out the weight section that follows the header: it must be a
    /// whole number of `f32` values, and then the tensors are taken from it
    /// in file order.
    pub fn weight_layout(&self) -> (r: Result<WeightLayout, LayoutError>)
        requires
            layout_fits(self.spec_config()),
        ensures
            exists|len: int|
                0 <= len <= usize::MAX && r == spec_layout_for_len(
                    self.spec_config(),
                    self.spec_shared(),
                    len,
                ),
    {
        let bytes = mapped_bytes(&self.mmap);
        let len = bytes.len();
        let r = layout_for_len(&self.config, self.shared_weights, len);
        assert(0 <= len as int <= usize::MAX && r == spec_layout_for_len(
            self.spec_config(),
            self.spec_shared(),
            len as int,
        ));
        r
    }
}

} // verus!
