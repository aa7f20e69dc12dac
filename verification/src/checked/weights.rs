//! Weight tensor sizes of the checked engine, and where each tensor lies in
//! the bytes that follow the header.
//!
//! The tensors are little-endian `f32` values in a fixed order; an optional
//! classifier tensor may follow. The values themselves are converted outside
//! this crate; here the sizes and byte ranges are computed and checked.

use vstd::prelude::*;
use crate::checked::config::Config;
use crate::io_error::{unexpected_eof, io_error_text};
use crate::text::{push_decimal, decimal};
use vstd::string::StringExecFns;

verus! {

/// Number of `f32` values in each weight tensor.
#[derive(Debug, Clone, PartialEq, Eq, Structural)]
pub struct WeightCounts {
    pub token_embedding_table: usize,
    pub rms_att_weight: usize,
    pub wq: usize,
    pub wk: usize,
    pub wv: usize,
    pub wo: usize,
    pub rms_ffn_weight: usize,
    pub w1: usize,
    pub w2: usize,
    pub w3: usize,
    pub rms_final_weight: usize,
    pub freq_cis_real: usize,
    pub freq_cis_imag: usize,
    pub wcls: usize,
}

/// Why the weights could not be sized or located.
#[derive(Debug)]
pub enum WeightsError {
    Io(std::io::Error),
    InvalidLayout(&'static str),
    TrailingBytes { expected: usize, actual: usize },
    SizeOverflow(&'static str),
}

impl WeightsError {
    /// Whether `m` is the message of this error.
    pub open spec fn message_is(&self, m: Seq<char>) -> bool {
        match self {
            WeightsError::Io(_) => exists|t: Seq<char>| m == "failed to read weights: "@ + t,
            WeightsError::InvalidLayout(reason) => m == "invalid weight layout: "@ + reason@,
            WeightsError::TrailingBytes { expected, actual } => m
                == "unexpected trailing bytes after mandatory weights: expected "@ + decimal(
                *expected as nat,
            ) + ", got "@ + decimal(*actual as nat),
            WeightsError::SizeOverflow(name) => m == "weight size overflow while computing `"@ + name@
                + "`"@,
        }
    }

    /// The message of the error.
    pub fn message(&self) -> (s: String)
        ensures
            self.message_is(s@),
    {
        match self {
            WeightsError::Io(e) => {
                let mut s = String::from_str("failed to read weights: ");
                let t = io_error_text(e);
                s.append(t.as_str());
                s
            },
            WeightsError::InvalidLayout(reason) => {
                let mut s = String::from_str("invalid weight layout: ");
                s.append(reason);
                s
            },
            WeightsError::TrailingBytes { expected, actual } => {
                let mut s = String::from_str("unexpected trailing bytes after mandatory weights: expected ");
                push_decimal(&mut s, *expected as u128);
                s.append(", got ");
                push_decimal(&mut s, *actual as u128);
                s
            },
            WeightsError::SizeOverflow(name) => {
                let mut s = String::from_str("weight size overflow while computing `");
                s.append(name);
                s.append("`");
                s
            },
        }
    }
}

/// Whether a product fits in `usize`.
pub open spec fn fits(x: int) -> bool {
    x <= usize::MAX
}

/// The first size of `from_config` that overflows `usize`, by the name it
/// is reported under, or `None`.
pub open spec fn count_overflow(c: Config) -> Option<&'static str> {
    let hd = c.dim / c.n_heads;
    let kv = hd * c.n_kv_heads;
    if !fits(c.seq_len * (hd / 2)) {
        Some("freq_cis")
    } else if !fits(c.n_layers * c.dim) {
        Some("layer_dim")
    } else if !fits(c.dim * c.dim) || !fits(c.n_layers * (c.dim * c.dim)) {
        Some("wq")
    } else if !fits(c.dim * kv) || !fits(c.n_layers * (c.dim * kv)) {
        Some("kv_proj")
    } else if !fits(c.hidden_dim * c.dim) || !fits(c.n_layers * (c.hidden_dim * c.dim)) {
        Some("ffn_proj")
    } else if !fits(c.vocab_size * c.dim) {
        Some("embedding")
    } else {
        None
    }
}

/// The tensor sizes of a configuration (when none overflows).
pub open spec fn spec_counts(c: Config) -> WeightCounts {
    let hd = c.dim / c.n_heads;
    let kv = hd * c.n_kv_heads;
    let layer_q = (c.n_layers * (c.dim * c.dim)) as usize;
    let layer_kv = (c.n_layers * (c.dim * kv)) as usize;
    let layer_ffn = (c.n_layers * (c.hidden_dim * c.dim)) as usize;
    let embedding = (c.vocab_size * c.dim) as usize;
    let rope = (c.seq_len * (hd / 2)) as usize;
    WeightCounts {
        token_embedding_table: embedding,
        rms_att_weight: (c.n_layers * c.dim) as usize,
        wq: layer_q,
        wk: layer_kv,
        wv: layer_kv,
        wo: layer_q,
        rms_ffn_weight: (c.n_layers * c.dim) as usize,
        w1: layer_ffn,
        w2: layer_ffn,
        w3: layer_ffn,
        rms_final_weight: c.dim,
        freq_cis_real: rope,
        freq_cis_imag: rope,
        wcls: embedding,
    }
}

/// Each tensor's size follows from the config: the embedding table and
/// the classifier are `vocab_size * dim`; the two RMS weight sets are
/// `n_layers * dim`; `wq` and `wo` are `n_layers * dim * dim`; `wk` and
/// `wv` are `n_layers * dim * kv_dim`; the feed-forward matrices are
/// `n_layers * dim * hidden_dim`; the final RMS weight is `dim`; and each
/// RoPE table is `seq_len * head_dim / 2`.
pub open spec fn sizes_follow_config(c: Config, w: WeightCounts) -> bool {
    let hd = c.dim / c.n_heads;
    &&& w.token_embedding_table == c.vocab_size * c.dim
    &&& w.rms_att_weight == c.n_layers * c.dim
    &&& w.wq == c.n_layers * c.dim * c.dim
    &&& w.wk == c.n_layers * c.dim * (hd * c.n_kv_heads)
    &&& w.wv == c.n_layers * c.dim * (hd * c.n_kv_heads)
    &&& w.wo == c.n_layers * c.dim * c.dim
    &&& w.rms_ffn_weight == c.n_layers * c.dim
    &&& w.w1 == c.n_layers * c.dim * c.hidden_dim
    &&& w.w2 == c.n_layers * c.hidden_dim * c.dim
    &&& w.w3 == c.n_layers * c.dim * c.hidden_dim
    &&& w.rms_final_weight == c.dim
    &&& w.freq_cis_real == c.seq_len * hd / 2
    &&& w.freq_cis_imag == c.seq_len * hd / 2
    &&& w.wcls == c.vocab_size * c.dim
}

/// The sizes of a config whose head dimension is even and whose sizes all
/// fit are the ones the config fixes.
pub proof fn tensor_sizes_follow_the_config(c: Config)
    requires
        c.n_heads > 0,
        (c.dim / c.n_heads) % 2 == 0,
        count_overflow(c) is None,
    ensures
        sizes_follow_config(c, spec_counts(c)),
{
    let hd = c.dim / c.n_heads;
    let kv = hd * c.n_kv_heads;
    let (l, d, h, s, v) = (c.n_layers as int, c.dim as int, c.hidden_dim as int, c.seq_len as int, c.vocab_size as int);
    assert(l * (d * d) == l * d * d) by (nonlinear_arith);
    assert(l * (d * kv) == l * d * kv) by (nonlinear_arith);
    assert(l * (h * d) == l * d * h) by (nonlinear_arith);
    assert(l * (h * d) == l * h * d) by (nonlinear_arith);
    assert(s * (hd / 2) == s * hd / 2) by (nonlinear_arith)
        requires
            hd % 2 == 0,
            hd >= 0,
    {
        let q = hd / 2;
        assert(hd == 2 * q);
        assert(s * hd == 2 * (s * q));
    }
}

/// `lhs * rhs`, or `SizeOverflow(name)` when it does not fit in `usize`.
fn checked_mul(lhs: usize, rhs: usize, name: &'static str) -> (r: Result<usize, WeightsError>)
    ensures
        fits(lhs * rhs) ==> r == Ok::<usize, WeightsError>((lhs * rhs) as usize),
        !fits(lhs * rhs) ==> (r matches Err(WeightsError::SizeOverflow(n)) && n == name),
{
    match lhs.checked_mul(rhs) {
        Some(v) => Ok(v),
        None => Err(WeightsError::SizeOverflow(name)),
    }
}

impl WeightCounts {
    /// The mandatory tensors, in file order.
    pub open spec fn mandatory(self) -> Seq<usize> {
        seq![
            self.token_embedding_table,
            self.rms_att_weight,
            self.wq,
            self.wk,
            self.wv,
            self.wo,
            self.rms_ffn_weight,
            self.w1,
            self.w2,
            self.w3,
            self.rms_final_weight,
            self.freq_cis_real,
            self.freq_cis_imag,
        ]
    }

    /// The total of the mandatory tensors.
    pub open spec fn spec_required(self) -> int {
        self.token_embedding_table + self.rms_att_weight + self.wq + self.wk + self.wv + self.wo
            + self.rms_ffn_weight + self.w1 + self.w2 + self.w3 + self.rms_final_weight
            + self.freq_cis_real + self.freq_cis_imag
    }

    /// Sizes every tensor of `config`. The head width must be even (the
    /// rotary tables hold half of it), else `InvalidLayout`; a size that
    /// does not fit in `usize` gives `SizeOverflow` with its name.
    pub fn from_config(config: &Config) -> (r: Result<Self, WeightsError>)
        requires
            config.n_heads > 0,
            (config.dim / config.n_heads) * config.n_kv_heads <= usize::MAX,
        ensures
            (config.dim / config.n_heads) % 2 != 0 ==> (r matches Err(WeightsError::InvalidLayout(m))
                && m@ == "head_dim must be even to represent RoPE frequencies"@),
            (config.dim / config.n_heads) % 2 == 0 ==> match count_overflow(*config) {
                Some(name) => r matches Err(WeightsError::SizeOverflow(n)) && n == name,
                None => r == Ok::<WeightCounts, WeightsError>(spec_counts(*config)),
            },
            r matches Ok(w) ==> sizes_follow_config(*config, w),
    {
        let head_dim = config.head_dim();
        if head_dim % 2 != 0 {
            return Err(WeightsError::InvalidLayout("head_dim must be even to represent RoPE frequencies"));
        }
        let rope_span = match checked_mul(config.seq_len, head_dim / 2, "freq_cis") {
            Ok(v) => v,
            Err(e) => return Err(e),
        };
        let layer_dim = match checked_mul(config.n_layers, config.dim, "layer_dim") {
            Ok(v) => v,
            Err(e) => return Err(e),
        };
        let dim_sq = match checked_mul(config.dim, config.dim, "wq") {
            Ok(v) => v,
            Err(e) => return Err(e),
        };
        let layer_q = match checked_mul(config.n_layers, dim_sq, "wq") {
            Ok(v) => v,
            Err(e) => return Err(e),
        };
        let kv_proj = match checked_mul(config.dim, config.kv_dim(), "kv_proj") {
            Ok(v) => v,
            Err(e) => return Err(e),
        };
        let layer_kv = match checked_mul(config.n_layers, kv_proj, "kv_proj") {
            Ok(v) => v,
            Err(e) => return Err(e),
        };
        let ffn_proj = match checked_mul(config.hidden_dim, config.dim, "ffn_proj") {
            Ok(v) => v,
            Err(e) => return Err(e),
        };
        let layer_ffn = match checked_mul(config.n_layers, ffn_proj, "ffn_proj") {
            Ok(v) => v,
            Err(e) => return Err(e),
        };
        let embedding = match checked_mul(config.vocab_size, config.dim, "embedding") {
            Ok(v) => v,
            Err(e) => return Err(e),
        };
        proof {
            tensor_sizes_follow_the_config(*config);
        }
        Ok(
            WeightCounts {
                token_embedding_table: embedding,
                rms_att_weight: layer_dim,
                wq: layer_q,
                wk: layer_kv,
                wv: layer_kv,
                wo: layer_q,
                rms_ffn_weight: layer_dim,
                w1: layer_ffn,
                w2: layer_ffn,
                w3: layer_ffn,
                rms_final_weight: config.dim,
                freq_cis_real: rope_span,
                freq_cis_imag: rope_span,
                wcls: embedding,
            },
        )
    }

    /// The number of `f32` values in the mandatory tensors (all but the
    /// classifier).
    pub fn required_f32_count(&self) -> (n: usize)
        requires
            self.spec_required() <= usize::MAX,
        ensures
            n == self.spec_required(),
    {
        self.token_embedding_table + self.rms_att_weight + self.wq + self.wk + self.wv + self.wo
            + self.rms_ffn_weight + self.w1 + self.w2 + self.w3 + self.rms_final_weight
            + self.freq_cis_real + self.freq_cis_imag
    }
}

/// Why the tensors cannot be located in the available bytes.
pub enum LayoutFault {
    /// The byte size of a tensor does not fit in `usize`.
    Overflow,
    /// The bytes end inside a tensor.
    Truncated,
}

/// Byte offset of tensor `i`: the byte sizes of the tensors before it.
pub open spec fn prefix_bytes(counts: Seq<usize>, i: int) -> int
    decreases i,
{
    if i <= 0 {
        0
    } else {
        prefix_bytes(counts, i - 1) + counts[i - 1] * 4
    }
}

/// The first tensor from `i` on that cannot be read from `avail` bytes.
pub open spec fn layout_fault(counts: Seq<usize>, avail: int, i: int) -> Option<LayoutFault>
    decreases counts.len() - i,
{
    if i < 0 || i >= counts.len() {
        None
    } else if !fits(counts[i] * 4) {
        Some(LayoutFault::Overflow)
    } else if prefix_bytes(counts, i + 1) > avail {
        Some(LayoutFault::Truncated)
    } else {
        layout_fault(counts, avail, i + 1)
    }
}

/// The mandatory tensors end where their total says: the layout needs
/// exactly four bytes per `f32` value that `required_f32_count` counts.
pub proof fn mandatory_bytes_match_required_count(c: WeightCounts)
    ensures
        prefix_bytes(c.mandatory(), 13) == 4 * c.spec_required(),
{
    let m = c.mandatory();
    reveal_with_fuel(prefix_bytes, 14);
}

/// Where the tensors lie in the weight bytes.
#[derive(Debug, Clone, PartialEq, Eq)]
pub struct WeightsLayout {
    /// The tensor sizes, in `f32` values.
    pub counts: WeightCounts,
    /// The byte range of each mandatory tensor, in file order.
    pub ranges: Vec<(usize, usize)>,
    /// The byte range of the classifier tensor, when the bytes hold one.
    pub classifier: Option<(usize, usize)>,
}

/// The byte ranges of the tensors, one after another from offset 0.
pub open spec fn spec_ranges(counts: Seq<usize>) -> Seq<(usize, usize)> {
    Seq::new(
        counts.len(),
        |i: int| (prefix_bytes(counts, i) as usize, prefix_bytes(counts, i + 1) as usize),
    )
}

/// Tensors lie back to back from offset 0: range `k` starts where range
/// `k - 1` ends and holds four bytes per `f32` value of tensor `k`.
pub open spec fn back_to_back(counts: Seq<usize>, ranges: Seq<(usize, usize)>) -> bool {
    &&& ranges.len() == counts.len()
    &&& ranges.len() > 0 ==> ranges[0].0 == 0
    &&& forall|k: int| 0 <= k < ranges.len() ==> #[trigger] ranges[k].1 == ranges[k].0 + 4 * counts[k]
    &&& forall|k: int| 0 < k < ranges.len() ==> #[trigger] ranges[k].0 == ranges[k - 1].1
}

/// Locates the tensors of `config` in `available` bytes of weights: the
/// mandatory tensors one after another, then either nothing or exactly one
/// classifier tensor. Sizing errors come first (`from_config`); a tensor
/// whose byte size overflows gives `SizeOverflow("tensor_bytes")`; bytes
/// that end inside a tensor give `Io`; any other number of bytes after the
/// mandatory tensors gives `TrailingBytes`.
pub fn weights_layout(config: &Config, available: usize) -> (r: Result<WeightsLayout, WeightsError>)
    requires
        config.n_heads > 0,
        (config.dim / config.n_heads) * config.n_kv_heads <= usize::MAX,
    ensures
        (config.dim / config.n_heads) % 2 != 0 ==> (r matches Err(WeightsError::InvalidLayout(m))
            && m@ == "head_dim must be even to represent RoPE frequencies"@),
        (config.dim / config.n_heads) % 2 == 0 && count_overflow(*config) is Some ==> (r matches Err(
            WeightsError::SizeOverflow(n),
        ) && Some(n) == count_overflow(*config)),
        (config.dim / config.n_heads) % 2 == 0 && count_overflow(*config) is None ==> {
            let counts = spec_counts(*config);
            let m = counts.mandatory();
            let end = prefix_bytes(m, 13);
            match layout_fault(m, available as int, 0) {
                Some(LayoutFault::Overflow) => r matches Err(WeightsError::SizeOverflow(n))
                    && n@ == "tensor_bytes"@,
                Some(LayoutFault::Truncated) => r matches Err(WeightsError::Io(_)),
                None => if available == end {
                    r matches Ok(l) && l.counts == counts && l.ranges@ == spec_ranges(m)
                        && l.classifier is None
                } else if available - end == counts.wcls * 4 {
                    r matches Ok(l) && l.counts == counts && l.ranges@ == spec_ranges(m)
                        && l.classifier == Some((end as usize, available))
                } else {
                    r matches Err(WeightsError::TrailingBytes { expected, actual })
                        && expected == counts.wcls * 4 && actual == available - end
                },
            }
        },
        r matches Ok(l) ==> sizes_follow_config(*config, l.counts) && back_to_back(
            l.counts.mandatory(),
            l.ranges@,
        ) && l.ranges@[12].1 <= available && match l.classifier {
            None => l.ranges@[12].1 == available,
            Some((a, b)) => a == l.ranges@[12].1 && b == available && b - a == 4 * l.counts.wcls,
        },
{
    let counts = match WeightCounts::from_config(config) {
        Ok(c) => c,
        Err(e) => return Err(e),
    };
    let sizes: Vec<usize> = vec![
        counts.token_embedding_table,
        counts.rms_att_weight,
        counts.wq,
        counts.wk,
        counts.wv,
        counts.wo,
        counts.rms_ffn_weight,
        counts.w1,
        counts.w2,
        counts.w3,
        counts.rms_final_weight,
        counts.freq_cis_real,
        counts.freq_cis_imag,
    ];
    let ghost m = counts.mandatory();
    assert(sizes@ =~= m);
    let mut ranges: Vec<(usize, usize)> = Vec::new();
    let mut pos: usize = 0;
    let mut i: usize = 0;
    while i < sizes.len()
        invariant
            sizes@ == m,
            m.len() == 13,
            (config.dim / config.n_heads) % 2 == 0,
            count_overflow(*config) is None,
            counts == spec_counts(*config),
            m == counts.mandatory(),
            i <= 13,
            pos == prefix_bytes(m, i as int),
            pos <= available,
            ranges@ == spec_ranges(m).take(i as int),
            layout_fault(m, available as int, 0) == layout_fault(m, available as int, i as int),
            forall|k: int| 0 <= k <= i ==> 0 <= #[trigger] prefix_bytes(m, k) <= pos,
        decreases 13 - i,
    {
        let count = sizes[i];
        if count > usize::MAX / 4 {
            return Err(WeightsError::SizeOverflow("tensor_bytes"));
        }
        let bytes = count * 4;
        if bytes > available - pos {
            return Err(WeightsError::Io(unexpected_eof("failed to fill whole buffer")));
        }
        ranges.push((pos, pos + bytes));
        assert(spec_ranges(m).take(i + 1) =~= spec_ranges(m).take(i as int).push((pos, (pos + bytes) as usize)));
        pos = pos + bytes;
        i += 1;
    }
    assert(spec_ranges(m).take(13) =~= spec_ranges(m));
    assert(back_to_back(m, ranges@)) by {
        assert forall|k: int| 0 <= k < 13 implies #[trigger] ranges@[k].1 == ranges@[k].0 + 4 * m[k] by {
            assert(ranges@[k] == spec_ranges(m)[k]);
            assert(prefix_bytes(m, k + 1) == prefix_bytes(m, k) + m[k] * 4);
            assert(0 <= prefix_bytes(m, k) <= pos);
            assert(0 <= prefix_bytes(m, k + 1) <= pos);
        }
        assert forall|k: int| 0 < k < 13 implies #[trigger] ranges@[k].0 == ranges@[k - 1].1 by {
            assert(ranges@[k] == spec_ranges(m)[k]);
            assert(ranges@[k - 1] == spec_ranges(m)[k - 1]);
        }
        assert(ranges@[0] == spec_ranges(m)[0]);
    }
    assert(ranges@[12] == spec_ranges(m)[12]);
    assert(0 <= prefix_bytes(m, 13) <= pos);
    let trailing = available - pos;
    if trailing == 0 {
        Ok(WeightsLayout { counts, ranges, classifier: None })
    } else if trailing == counts.wcls * 4 {
        Ok(WeightsLayout { counts, ranges, classifier: Some((pos, available)) })
    } else {
        Err(WeightsError::TrailingBytes { expected: counts.wcls * 4, actual: trailing })
    }
}

} // verus!
