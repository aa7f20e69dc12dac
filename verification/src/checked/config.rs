//! Model header of the checked engine: seven little-endian `i32` fields,
//! each of which must be positive, followed by shape checks.

use vstd::prelude::*;
use crate::le_bytes::{i32_at, spec_i32_at};
use crate::io_error::{unexpected_eof, io_error_text};
use crate::text::{push_signed_decimal, signed_decimal};
use vstd::string::StringExecFns;

verus! {

/// Number of `i32` fields in the header.
pub const CONFIG_FIELD_COUNT: usize = 7;

/// Shape of the transformer.
#[derive(Debug, Clone, PartialEq, Eq, Structural)]
pub struct Config {
    pub dim: usize,
    pub hidden_dim: usize,
    pub n_layers: usize,
    pub n_heads: usize,
    pub n_kv_heads: usize,
    pub vocab_size: usize,
    pub seq_len: usize,
}

/// Why a header was refused.
#[derive(Debug)]
pub enum ConfigError {
    Io(std::io::Error),
    InvalidField { name: &'static str, value: i32, reason: &'static str },
}

impl ConfigError {
    /// Whether `m` is the message of this error: the I/O error's text after
    /// a prefix, or the field, its value and the reason.
    pub open spec fn message_is(&self, m: Seq<char>) -> bool {
        match self {
            ConfigError::Io(_) => exists|t: Seq<char>| m == "failed to read model config: "@ + t,
            ConfigError::InvalidField { name, value, reason } => m == "invalid config field `"@ + name@
                + "` ("@ + signed_decimal(*value as int) + "): "@ + reason@,
        }
    }

    /// The message of the error.
    pub fn message(&self) -> (s: String)
        ensures
            self.message_is(s@),
    {
        match self {
            ConfigError::Io(e) => {
                let mut s = String::from_str("failed to read model config: ");
                let t = io_error_text(e);
                s.append(t.as_str());
                s
            },
            ConfigError::InvalidField { name, value, reason } => {
                let mut s = String::from_str("invalid config field `");
                s.append(name);
                s.append("` (");
                push_signed_decimal(&mut s, *value as i64);
                s.append("): ");
                s.append(reason);
                s
            },
        }
    }
}

/// The name of header field `k`.
pub open spec fn field_name(k: int) -> &'static str {
    if k == 0 {
        "dim"
    } else if k == 1 {
        "hidden_dim"
    } else if k == 2 {
        "n_layers"
    } else if k == 3 {
        "n_heads"
    } else if k == 4 {
        "n_kv_heads"
    } else if k == 5 {
        "vocab_size"
    } else {
        "seq_len"
    }
}

/// What goes wrong first while reading fields `k..7` of a header.
pub enum HeaderFault {
    /// Field `at` runs past the end of the input.
    Truncated { at: int },
    /// Field `at` holds `value`, which is not positive.
    NotPositive { at: int, value: int },
}

/// The first fault among fields `k..7` of `bytes`, read in order, each
/// field checked as soon as it is read.
pub open spec fn header_fault(bytes: Seq<u8>, k: int) -> Option<HeaderFault>
    decreases 7 - k,
{
    if k >= 7 {
        None
    } else if bytes.len() < 4 * k + 4 {
        Some(HeaderFault::Truncated { at: k })
    } else if spec_i32_at(bytes, 4 * k) <= 0 {
        Some(HeaderFault::NotPositive { at: k, value: spec_i32_at(bytes, 4 * k) })
    } else {
        header_fault(bytes, k + 1)
    }
}

/// A fault found from field `k` on lies at field `k` or later.
proof fn lemma_header_fault_from(bytes: Seq<u8>, k: int)
    ensures
        match header_fault(bytes, k) {
            Some(HeaderFault::Truncated { at }) => at >= k,
            Some(HeaderFault::NotPositive { at, value }) => at >= k,
            None => true,
        },
    decreases 7 - k,
{
    if k < 7 && bytes.len() >= 4 * k + 4 && spec_i32_at(bytes, 4 * k) > 0 {
        lemma_header_fault_from(bytes, k + 1);
    }
}

/// The config whose fields are the seven header values.
pub open spec fn spec_header_config(bytes: Seq<u8>) -> Config {
    Config {
        dim: spec_i32_at(bytes, 0) as usize,
        hidden_dim: spec_i32_at(bytes, 4) as usize,
        n_layers: spec_i32_at(bytes, 8) as usize,
        n_heads: spec_i32_at(bytes, 12) as usize,
        n_kv_heads: spec_i32_at(bytes, 16) as usize,
        vocab_size: spec_i32_at(bytes, 20) as usize,
        seq_len: spec_i32_at(bytes, 24) as usize,
    }
}

/// The first shape rule that `c` breaks, as (field name, value, reason).
pub open spec fn shape_fault(c: Config) -> Option<(&'static str, i32, &'static str)> {
    if c.n_heads == 0 {
        Some(("n_heads", 0i32, "must be greater than zero"))
    } else if c.n_kv_heads == 0 {
        Some(("n_kv_heads", 0i32, "must be greater than zero"))
    } else if c.dim % c.n_heads != 0 {
        Some(("dim", c.dim as i32, "must be divisible by n_heads"))
    } else if c.n_heads % c.n_kv_heads != 0 {
        Some(("n_heads", c.n_heads as i32, "must be divisible by n_kv_heads"))
    } else {
        None
    }
}

impl Config {
    /// Reads a header from the front of `reader` and validates it.
    ///
    /// On success the reader has moved past the 28 header bytes. A field that
    /// runs past the end gives `ConfigError::Io` and leaves the reader empty;
    /// a non-positive field gives `InvalidField` with that field's name and
    /// value; a shape rule that fails gives the error of `validate`.
    pub fn from_reader(reader: &mut &[u8]) -> (r: Result<Self, ConfigError>)
        ensures
            match header_fault(old(reader)@, 0) {
                Some(HeaderFault::Truncated { at }) => {
                    &&& r matches Err(ConfigError::Io(_))
                    &&& final(reader)@.len() == 0
                },
                Some(HeaderFault::NotPositive { at, value }) => {
                    &&& r matches Err(ConfigError::InvalidField { name, value: v, reason })
                    &&& name@ == field_name(at)@ && v == value
                    &&& reason@ == "must be greater than zero"@
                    &&& final(reader)@ == old(reader)@.skip(4 * at + 4)
                },
                None => {
                    &&& final(reader)@ == old(reader)@.skip(28)
                    &&& match shape_fault(spec_header_config(old(reader)@)) {
                        Some((name, value, reason)) => r matches Err(
                            ConfigError::InvalidField { name: n, value: v, reason: w },
                        ) && n@ == name@ && v == value && w@ == reason@,
                        None => r == Ok::<Config, ConfigError>(
                            spec_header_config(old(reader)@),
                        ),
                    }
                },
            },
    {
        let ghost start = reader@;
        assert(start.skip(0) == start);
        let dim = read_positive_i32(reader, "dim", Ghost(start), Ghost(0))?;
        let hidden_dim = read_positive_i32(reader, "hidden_dim", Ghost(start), Ghost(1))?;
        let n_layers = read_positive_i32(reader, "n_layers", Ghost(start), Ghost(2))?;
        let n_heads = read_positive_i32(reader, "n_heads", Ghost(start), Ghost(3))?;
        let n_kv_heads = read_positive_i32(reader, "n_kv_heads", Ghost(start), Ghost(4))?;
        let vocab_size = read_positive_i32(reader, "vocab_size", Ghost(start), Ghost(5))?;
        let seq_len = read_positive_i32(reader, "seq_len", Ghost(start), Ghost(6))?;
        let config = Config { dim, hidden_dim, n_layers, n_heads, n_kv_heads, vocab_size, seq_len };
        assert(start.skip(24).skip(4) == start.skip(28));
        match config.validate() {
            Ok(()) => Ok(config),
            Err(e) => Err(e),
        }
    }

    /// Checks the shape rules in order: both head counts positive, `dim`
    /// divisible by `n_heads`, `n_heads` divisible by `n_kv_heads`.
    pub fn validate(&self) -> (r: Result<(), ConfigError>)
        ensures
            match shape_fault(*self) {
                Some((name, value, reason)) => r matches Err(
                    ConfigError::InvalidField { name: n, value: v, reason: w },
                ) && n@ == name@ && v == value && w@ == reason@,
                None => r is Ok,
            },
    {
        if self.n_heads == 0 {
            return Err(
                ConfigError::InvalidField {
                    name: "n_heads",
                    value: 0,
                    reason: "must be greater than zero",
                },
            );
        }
        if self.n_kv_heads == 0 {
            return Err(
                ConfigError::InvalidField {
                    name: "n_kv_heads",
                    value: 0,
                    reason: "must be greater than zero",
                },
            );
        }
        if self.dim % self.n_heads != 0 {
            return Err(
                ConfigError::InvalidField {
                    name: "dim",
                    value: self.dim as i32,
                    reason: "must be divisible by n_heads",
                },
            );
        }
        if self.n_heads % self.n_kv_heads != 0 {
            return Err(
                ConfigError::InvalidField {
                    name: "n_heads",
                    value: self.n_heads as i32,
                    reason: "must be divisible by n_kv_heads",
                },
            );
        }
        Ok(())
    }

    /// Size in bytes of the header.
    pub fn header_size() -> (n: usize)
        ensures
            n == 28,
    {
        CONFIG_FIELD_COUNT * 4
    }

    /// Width of one attention head.
    pub fn head_dim(&self) -> (d: usize)
        requires
            self.n_heads > 0,
        ensures
            d == self.dim / self.n_heads,
    {
        self.dim / self.n_heads
    }

    /// Width of the key/value projections.
    pub fn kv_dim(&self) -> (d: usize)
        requires
            self.n_heads > 0,
            (self.dim / self.n_heads) * self.n_kv_heads <= usize::MAX,
        ensures
            d == (self.dim / self.n_heads) * self.n_kv_heads,
    {
        self.head_dim() * self.n_kv_heads
    }
}

/// Reads field `at` of the header that started as `start`: an `i32` that
/// must be positive.
fn read_positive_i32(
    reader: &mut &[u8],
    name: &'static str,
    Ghost(start): Ghost<Seq<u8>>,
    Ghost(at): Ghost<int>,
) -> (r: Result<usize, ConfigError>)
    requires
        0 <= at < 7,
        start.len() >= 4 * at,
        old(reader)@ == start.skip(4 * at),
        name@ == field_name(at)@,
        header_fault(start, 0) == header_fault(start, at),
    ensures
        match header_fault(start, at) {
            Some(HeaderFault::Truncated { at: k }) => k == at ==> {
                &&& r matches Err(ConfigError::Io(_))
                &&& final(reader)@.len() == 0
            },
            Some(HeaderFault::NotPositive { at: k, value }) => k == at ==> {
                &&& r matches Err(ConfigError::InvalidField { name: n, value: v, reason })
                &&& n@ == field_name(at)@ && v == value
                &&& reason@ == "must be greater than zero"@
                &&& final(reader)@ == start.skip(4 * at + 4)
            },
            _ => true,
        },
        r is Ok <==> (start.len() >= 4 * at + 4 && spec_i32_at(start, 4 * at) > 0),
        r matches Ok(v) ==> {
            &&& v == spec_i32_at(start, 4 * at) as usize
            &&& final(reader)@ == start.skip(4 * at + 4)
            &&& header_fault(start, 0) == header_fault(start, at + 1)
        },
{
    if reader.len() < 4 {
        let (_, empty) = reader.split_at(reader.len());
        *reader = empty;
        return Err(ConfigError::Io(unexpected_eof("failed to fill whole buffer")));
    }
    let value = read_i32(reader);
    assert(spec_i32_at(old(reader)@, 0) == spec_i32_at(start, 4 * at));
    assert(start.skip(4 * at).skip(4) == start.skip(4 * at + 4));
    if value <= 0 {
        return Err(
            ConfigError::InvalidField { name, value, reason: "must be greater than zero" },
        );
    }
    assert(header_fault(start, at) == header_fault(start, at + 1));
    proof {
        lemma_header_fault_from(start, at + 1);
    }
    Ok(value as usize)
}

/// Reads a little-endian `i32` from the front of `reader` and moves past it.
fn read_i32(reader: &mut &[u8]) -> (v: i32)
    requires
        old(reader)@.len() >= 4,
    ensures
        v == spec_i32_at(old(reader)@, 0),
        final(reader)@ == old(reader)@.skip(4),
{
    let v = i32_at(reader, 0);
    let (_, rest) = reader.split_at(4);
    *reader = rest;
    v
}

} // verus!
