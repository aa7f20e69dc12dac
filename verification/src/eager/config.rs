//! Model header of the eager engine. A negative vocabulary size in the file
//! marks a classifier that is stored apart from the embedding table.

use vstd::prelude::*;
use crate::le_bytes::{i32_at, spec_i32_at};
use crate::io_error::invalid_data;
use crate::text::non_positive_message;

verus! {

/// Shape of the transformer.
#[derive(Debug, Clone, PartialEq, Eq, Structural)]
pub struct Config {
    pub dim: usize,
    pub hidden_dim: usize,
    pub n_layers: usize,
    pub n_heads: usize,
    pub n_kv_heads: usize,
    pub vocab_size: usize,
    pub seq_len: usize,
}

/// The shape rules that `Config::new` insists on.
pub open spec fn valid_shape(
    dim: int,
    hidden_dim: int,
    n_layers: int,
    n_heads: int,
    n_kv_heads: int,
    vocab_size: int,
    seq_len: int,
) -> bool {
    &&& dim > 0
    &&& hidden_dim > 0
    &&& n_layers > 0
    &&& n_heads > 0
    &&& n_kv_heads > 0
    &&& vocab_size > 0
    &&& seq_len > 0
    &&& dim % n_heads == 0
    &&& n_heads % n_kv_heads == 0
}

/// `|v|` for a header value.
pub open spec fn abs_value(v: i32) -> int {
    if v < 0 {
        -v
    } else {
        v as int
    }
}

/// Every header field is positive (the vocabulary size by its magnitude).
pub open spec fn fields_positive(values: Seq<i32>) -> bool {
    &&& values[0] > 0
    &&& values[1] > 0
    &&& values[2] > 0
    &&& values[3] > 0
    &&& values[4] > 0
    &&& values[5] != 0
    &&& values[6] > 0
}

/// The header values pass the field checks, and `Config::new` then accepts
/// them.
pub open spec fn header_accepted_shape(values: Seq<i32>) -> bool {
    fields_positive(values) ==> valid_shape(
        values[0] as int,
        values[1] as int,
        values[2] as int,
        values[3] as int,
        values[4] as int,
        abs_value(values[5]),
        values[6] as int,
    )
}

/// The config that header values describe.
pub open spec fn spec_config_of(values: Seq<i32>) -> Config {
    Config {
        dim: values[0] as usize,
        hidden_dim: values[1] as usize,
        n_layers: values[2] as usize,
        n_heads: values[3] as usize,
        n_kv_heads: values[4] as usize,
        vocab_size: abs_value(values[5]) as usize,
        seq_len: values[6] as usize,
    }
}

/// The seven `i32` values of a 28-byte header.
pub open spec fn header_values(bytes: Seq<u8>) -> Seq<i32> {
    Seq::new(7, |i: int| spec_i32_at(bytes, 4 * i) as i32)
}

impl Config {
    /// Size in bytes of the header.
    pub const BYTE_SIZE: usize = 28;

    /// A config with the given shape; every size is positive and the head
    /// counts divide evenly (the original panics otherwise).
    pub fn new(
        dim: usize,
        hidden_dim: usize,
        n_layers: usize,
        n_heads: usize,
        n_kv_heads: usize,
        vocab_size: usize,
        seq_len: usize,
    ) -> (c: Self)
        requires
            valid_shape(
                dim as int,
                hidden_dim as int,
                n_layers as int,
                n_heads as int,
                n_kv_heads as int,
                vocab_size as int,
                seq_len as int,
            ),
        ensures
            c == (Config { dim, hidden_dim, n_layers, n_heads, n_kv_heads, vocab_size, seq_len }),
    {
        Self { dim, hidden_dim, n_layers, n_heads, n_kv_heads, vocab_size, seq_len }
    }

    /// Width of one attention head.
    pub fn head_size(&self) -> (d: usize)
        requires
            self.n_heads > 0,
        ensures
            d == self.dim / self.n_heads,
    {
        self.dim / self.n_heads
    }

    /// Width of the key/value projections.
    pub fn kv_dim(&self) -> (d: usize)
        requires
            self.n_heads > 0,
            (self.dim / self.n_heads) * self.n_kv_heads <= usize::MAX,
        ensures
            d == (self.dim / self.n_heads) * self.n_kv_heads,
    {
        self.head_size() * self.n_kv_heads
    }

    /// Decodes the seven header values. The sixth value gives the vocabulary
    /// size by its magnitude, and its sign tells whether the classifier
    /// shares the embedding table (positive) or is stored apart. A
    /// non-positive field gives an `InvalidData` error.
    pub fn from_i32_array(values: [i32; 7]) -> (r: std::io::Result<(Self, bool)>)
        requires
            header_accepted_shape(values@),
        ensures
            r is Ok <==> fields_positive(values@),
            r matches Ok((c, shared)) ==> c == spec_config_of(values@) && shared == (values@[5] > 0),
    {
        let shared_weights = values[5] > 0;
        let vocab_size: usize = if values[5] < 0 {
            (-(values[5] as i64)) as usize
        } else {
            values[5] as usize
        };
        let dim = positive_i32_to_usize(values[0], "dim")?;
        let hidden_dim = positive_i32_to_usize(values[1], "hidden_dim")?;
        let n_layers = positive_i32_to_usize(values[2], "n_layers")?;
        let n_heads = positive_i32_to_usize(values[3], "n_heads")?;
        let n_kv_heads = positive_i32_to_usize(values[4], "n_kv_heads")?;
        let vocab_size = positive_usize(vocab_size, "vocab_size")?;
        let seq_len = positive_i32_to_usize(values[6], "seq_len")?;
        let config = Self::new(dim, hidden_dim, n_layers, n_heads, n_kv_heads, vocab_size, seq_len);
        Ok((config, shared_weights))
    }

    /// Decodes a 28-byte header as seven little-endian `i32` values and
    /// hands them to `from_i32_array`.
    pub fn from_bytes(bytes: [u8; 28]) -> (r: std::io::Result<(Self, bool)>)
        requires
            header_accepted_shape(header_values(bytes@)),
        ensures
            r is Ok <==> fields_positive(header_values(bytes@)),
            r matches Ok((c, shared)) ==> c == spec_config_of(header_values(bytes@)) && shared == (
            header_values(bytes@)[5] > 0),
    {
        let slice: &[u8] = &bytes;
        let mut values: [i32; 7] = [0; 7];
        let mut index: usize = 0;
        while index < 7
            invariant
                index <= 7,
                slice@ == bytes@,
                bytes@.len() == 28,
                forall|j: int| 0 <= j < index ==> #[trigger] values@[j] == header_values(bytes@)[j],
            decreases 7 - index,
        {
            values[index] = i32_at(slice, 4 * index);
            index += 1;
        }
        assert(values@ == header_values(bytes@));
        Self::from_i32_array(values)
    }
}

fn positive_i32_to_usize(value: i32, field: &str) -> (r: std::io::Result<usize>)
    ensures
        r is Ok <==> value > 0,
        r matches Ok(v) ==> v == value,
{
    if value <= 0 {
        return Err(invalid_data(non_positive_message(field, value as i64)));
    }
    Ok(value as usize)
}

fn positive_usize(value: usize, field: &str) -> (r: std::io::Result<usize>)
    ensures
        r is Ok <==> value > 0,
        r matches Ok(v) ==> v == value,
{
    if value == 0 {
        return Err(invalid_data(non_positive_message(field, 0)));
    }
    Ok(value)
}

} // verus!
