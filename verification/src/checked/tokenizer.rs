//! The checked tokenizer: a vocabulary of byte strings with scores,
//! byte-pair encoding with byte fallback, and decoding.
//!
//! File format: `max_token_length: u32`, then per entry `score: f32`,
//! `length: i32`, `length` bytes. Scores are kept as their bits.

use vstd::prelude::*;
use vstd::string::StrSliceExecFns;
use vstd::utf8::{encode_scalar, encode_utf8, valid_utf8, decode_utf8, encode_utf8_valid_utf8, encode_utf8_decode_utf8};
use crate::lexicon::{key_bytes, is_key_order, ids_in_range, sort_ids_by_key, find_last, last_id, last_index, lemma_last_index_below};
use crate::bpe::{SpecPiece, scan_pairs, best_pair, merge_at, merge_all, lemma_scan_pairs, lemma_merge_all, spelled, piece_bytes, faithful, sound_lookup, lemma_spelled_concat, lemma_spelled_one, lemma_merge_all_faithful};
use crate::score::{f32_gt, spec_f32_gt, NEG_INFINITY_BITS};
use crate::text::{char_utf8, join_bytes, utf8_lossy, lossy_text};
use crate::le_bytes::{u32_at, i32_at, spec_u32_at, spec_i32_at};
use crate::io_error::{unexpected_eof, io_error_text};
use crate::text::{push_decimal, decimal};
use vstd::string::StringExecFns;

verus! {

/// A vocabulary with its scores and special tokens.
#[derive(Debug)]
pub struct Tokenizer {
    vocab: Vec<Vec<u8>>,
    scores: Vec<u32>,
    order: Vec<usize>,
    max_token_length: usize,
    bos_token: Option<u32>,
    eos_token: Option<u32>,
    unk_token: Option<u32>,
}

/// A piece of the text during encoding: a token and the bytes it covers.
#[derive(Debug, Clone)]
struct Piece {
    token_id: u32,
    bytes: Vec<u8>,
}

/// Why loading, encoding or decoding failed.
#[derive(Debug)]
pub enum TokenizerError {
    Io(std::io::Error),
    InvalidHeader(&'static str),
    InvalidEntry { index: usize, reason: &'static str },
    TokenOutOfRange(u32),
    MissingSpecialToken(&'static str),
    MissingByteFallback(u8),
}

impl TokenizerError {
    /// Whether `m` is the message of this error.
    pub open spec fn message_is(&self, m: Seq<char>) -> bool {
        match self {
            TokenizerError::Io(_) => exists|t: Seq<char>| m == "failed to read tokenizer: "@ + t,
            TokenizerError::InvalidHeader(reason) => m == "invalid tokenizer header: "@ + reason@,
            TokenizerError::InvalidEntry { index, reason } => m == "invalid tokenizer entry at index "@
                + decimal(*index as nat) + ": "@ + reason@,
            TokenizerError::TokenOutOfRange(token) => m == "token id "@ + decimal(*token as nat)
                + " is out of range"@,
            TokenizerError::MissingSpecialToken(name) => m == "missing special token `"@ + name@ + "`"@,
            TokenizerError::MissingByteFallback(byte) => m == "missing byte fallback token for byte value "@
                + decimal(*byte as nat),
        }
    }

    /// The message of the error.
    pub fn message(&self) -> (s: String)
        ensures
            self.message_is(s@),
    {
        match self {
            TokenizerError::Io(e) => {
                let mut s = String::from_str("failed to read tokenizer: ");
                let t = io_error_text(e);
                s.append(t.as_str());
                s
            },
            TokenizerError::InvalidHeader(reason) => {
                let mut s = String::from_str("invalid tokenizer header: ");
                s.append(reason);
                s
            },
            TokenizerError::InvalidEntry { index, reason } => {
                let mut s = String::from_str("invalid tokenizer entry at index ");
                push_decimal(&mut s, *index as u128);
                s.append(": ");
                s.append(reason);
                s
            },
            TokenizerError::TokenOutOfRange(token) => {
                let mut s = String::from_str("token id ");
                push_decimal(&mut s, *token as u128);
                s.append(" is out of range");
                s
            },
            TokenizerError::MissingSpecialToken(name) => {
                let mut s = String::from_str("missing special token `");
                s.append(name);
                s.append("`");
                s
            },
            TokenizerError::MissingByteFallback(byte) => {
                let mut s = String::from_str("missing byte fallback token for byte value ");
                push_decimal(&mut s, *byte as u128);
                s
            },
        }
    }
}

/// The spec value of a piece.
spec fn piece_view(p: Piece) -> SpecPiece {
    (p.token_id as int, p.bytes@)
}

/// The spec values of pieces.
spec fn pieces_view(ps: Seq<Piece>) -> Seq<SpecPiece> {
    ps.map_values(|p: Piece| piece_view(p))
}

/// The token ids of pieces.
pub open spec fn piece_ids(ps: Seq<SpecPiece>) -> Seq<u32> {
    ps.map_values(|p: SpecPiece| p.0 as u32)
}

/// What goes wrong first while encoding.
pub enum EncodeFault {
    MissingBos,
    MissingByte(u8),
    MissingEos,
}

/// The bytes of `<s>`.
pub open spec fn bos_text() -> Seq<u8> {
    seq![60u8, 115, 62]
}

/// The bytes of `<|begin_of_text|>`.
pub open spec fn bos_text_alt() -> Seq<u8> {
    seq![60u8, 124, 98, 101, 103, 105, 110, 95, 111, 102, 95, 116, 101, 120, 116, 124, 62]
}

/// The bytes of `</s>`.
pub open spec fn eos_text() -> Seq<u8> {
    seq![60u8, 47, 115, 62]
}

/// The bytes of `<|end_of_text|>`.
pub open spec fn eos_text_alt() -> Seq<u8> {
    seq![60u8, 124, 101, 110, 100, 95, 111, 102, 95, 116, 101, 120, 116, 124, 62]
}

/// The bytes of `<unk>`.
pub open spec fn unk_text() -> Seq<u8> {
    seq![60u8, 117, 110, 107, 62]
}

/// A special token: the last entry spelling the first candidate that has
/// one, else `fallback` if it is an id of the vocabulary.
pub open spec fn special_token(keys: Seq<Seq<u8>>, candidates: Seq<Seq<u8>>, fallback: u32) -> Option<u32>
    decreases candidates.len(),
{
    if candidates.len() == 0 {
        if (fallback as int) < keys.len() {
            Some(fallback)
        } else {
            None
        }
    } else {
        match last_index(keys, candidates[0]) {
            Some(i) => Some(i as u32),
            None => special_token(keys, candidates.drop_first(), fallback),
        }
    }
}

/// A load that succeeds: the maximum token length and the entries as
/// (score bits, bytes).
pub type SpecVocab = (int, Seq<(u32, Seq<u8>)>);

/// What goes wrong first while loading.
pub enum LoadFault {
    /// The input ends early.
    Truncated,
    /// The maximum token length is 0.
    ZeroMaxLength,
    /// Entry `index` has a negative length.
    NegativeLength { index: int },
    /// Entry `index` is longer than the maximum token length.
    TooLong { index: int },
}

/// Entries `index..n` read from position `pos`: the entries and the end
/// position, or the first fault.
pub open spec fn parse_entries(b: Seq<u8>, pos: int, max: int, index: int, n: int) -> Result<
    (Seq<(u32, Seq<u8>)>, int),
    LoadFault,
>
    decreases n - index,
{
    if index >= n {
        Ok((Seq::empty(), pos))
    } else if pos + 8 > b.len() {
        Err(LoadFault::Truncated)
    } else {
        let len = spec_i32_at(b, pos + 4);
        if len < 0 {
            Err(LoadFault::NegativeLength { index })
        } else if len > max {
            Err(LoadFault::TooLong { index })
        } else if pos + 8 + len > b.len() {
            Err(LoadFault::Truncated)
        } else {
            let entry = (spec_u32_at(b, pos) as u32, b.subrange(pos + 8, pos + 8 + len));
            match parse_entries(b, pos + 8 + len, max, index + 1, n) {
                Ok((rest, end)) => Ok((seq![entry].add(rest), end)),
                Err(e) => Err(e),
            }
        }
    }
}

/// A whole tokenizer file of `n` entries: the vocabulary and the bytes
/// consumed, or the first fault.
pub open spec fn parse_vocab(b: Seq<u8>, n: int) -> Result<(SpecVocab, int), LoadFault> {
    if b.len() < 4 {
        Err(LoadFault::Truncated)
    } else if spec_u32_at(b, 0) == 0 {
        Err(LoadFault::ZeroMaxLength)
    } else {
        match parse_entries(b, 4, spec_u32_at(b, 0), 0, n) {
            Ok((entries, end)) => Ok(((spec_u32_at(b, 0), entries), end)),
            Err(e) => Err(e),
        }
    }
}

impl Tokenizer {
    /// The bytes of every entry.
    pub closed spec fn keys(&self) -> Seq<Seq<u8>> {
        key_bytes(self.vocab@)
    }

    /// The score bits of every entry.
    pub closed spec fn score_bits(&self) -> Seq<u32> {
        self.scores@
    }

    /// The maximum token length.
    pub closed spec fn max_len(&self) -> nat {
        self.max_token_length as nat
    }

    pub closed spec fn bos(&self) -> Option<u32> {
        self.bos_token
    }

    pub closed spec fn eos(&self) -> Option<u32> {
        self.eos_token
    }

    pub closed spec fn unk(&self) -> Option<u32> {
        self.unk_token
    }

    #[verifier::type_invariant]
    spec fn inv(&self) -> bool {
        &&& self.vocab@.len() == self.scores@.len()
        &&& self.vocab@.len() <= u32::MAX
        &&& is_key_order(key_bytes(self.vocab@), self.order@)
        &&& ids_in_range(self.order@, self.vocab@.len() as int)
        &&& self.bos_token matches Some(t) ==> t < self.vocab@.len()
        &&& self.eos_token matches Some(t) ==> t < self.vocab@.len()
        &&& self.unk_token matches Some(t) ==> t < self.vocab@.len()
    }

    /// The entry spelling `b`: the last one, as a map from bytes to ids
    /// filled in entry order keeps it.
    pub open spec fn lookup(&self, b: Seq<u8>) -> Option<int> {
        last_index(self.keys(), b)
    }

    pub open spec fn lookup_fn(&self) -> spec_fn(Seq<u8>) -> Option<int> {
        |b: Seq<u8>| self.lookup(b)
    }

    /// The token a single byte falls back to: the entry spelling it, else
    /// the unknown token.
    pub open spec fn byte_token(&self, byte: u8) -> Option<int> {
        match self.lookup(seq![byte]) {
            Some(id) => Some(id),
            None => match self.unk() {
                Some(u) => Some(u as int),
                None => None,
            },
        }
    }

    /// One piece per byte, or the first byte without a token.
    pub open spec fn byte_pieces(&self, b: Seq<u8>) -> Result<Seq<SpecPiece>, u8>
        decreases b.len(),
    {
        if b.len() == 0 {
            Ok(Seq::empty())
        } else {
            match self.byte_token(b[0]) {
                None => Err(b[0]),
                Some(id) => match self.byte_pieces(b.drop_first()) {
                    Ok(rest) => Ok(seq![(id, seq![b[0]])].add(rest)),
                    Err(e) => Err(e),
                },
            }
        }
    }

    /// The pieces of the bytes of one character: the entry spelling them,
    /// else one piece per byte.
    pub open spec fn bytes_pieces(&self, b: Seq<u8>) -> Result<Seq<SpecPiece>, u8> {
        match self.lookup(b) {
            Some(id) => Ok(seq![(id, b)]),
            None => self.byte_pieces(b),
        }
    }

    /// The pieces of one character.
    pub open spec fn char_pieces(&self, c: char) -> Result<Seq<SpecPiece>, u8> {
        self.bytes_pieces(encode_scalar(c as u32))
    }

    /// The pieces of a text, character by character.
    pub open spec fn text_pieces(&self, text: Seq<char>) -> Result<Seq<SpecPiece>, u8>
        decreases text.len(),
    {
        if text.len() == 0 {
            Ok(Seq::empty())
        } else {
            match self.char_pieces(text[0]) {
                Err(e) => Err(e),
                Ok(p) => match self.text_pieces(text.drop_first()) {
                    Ok(rest) => Ok(p.add(rest)),
                    Err(e) => Err(e),
                },
            }
        }
    }

    /// Pieces after merging best pairs, limited to the maximum token length.
    pub open spec fn merged(&self, ps: Seq<SpecPiece>) -> Seq<SpecPiece> {
        merge_all(ps, self.lookup_fn(), self.score_bits(), Some(self.max_len() as int), NEG_INFINITY_BITS)
    }

    /// The tokens of `text`, or the first fault: the BOS piece (if asked
    /// for), the pieces of each character, merged; then EOS (if asked for).
    pub open spec fn spec_encode(&self, text: Seq<char>, add_bos: bool, add_eos: bool) -> Result<
        Seq<u32>,
        EncodeFault,
    > {
        if add_bos && self.bos() is None {
            Err(EncodeFault::MissingBos)
        } else {
            match self.text_pieces(text) {
                Err(b) => Err(EncodeFault::MissingByte(b)),
                Ok(ps) => {
                    let start = if add_bos {
                        seq![(self.bos().unwrap() as int, self.keys()[self.bos().unwrap() as int])].add(ps)
                    } else {
                        ps
                    };
                    let ids = piece_ids(self.merged(start));
                    if add_eos {
                        match self.eos() {
                            Some(e) => Ok(ids.push(e)),
                            None => Err(EncodeFault::MissingEos),
                        }
                    } else {
                        Ok(ids)
                    }
                },
            }
        }
    }

    /// The bytes that a sequence of tokens spells, or the first token that
    /// is not in the vocabulary.
    pub open spec fn spec_token_text(&self, ids: Seq<u32>) -> Result<Seq<u8>, u32>
        decreases ids.len(),
    {
        if ids.len() == 0 {
            Ok(Seq::empty())
        } else if ids[0] as int >= self.keys().len() {
            Err(ids[0])
        } else {
            match self.spec_token_text(ids.drop_first()) {
                Ok(rest) => Ok(self.keys()[ids[0] as int].add(rest)),
                Err(e) => Err(e),
            }
        }
    }
}

/// Entries as (score bits, bytes).
spec fn entries_view(v: Seq<Vec<u8>>, sc: Seq<u32>) -> Seq<(u32, Seq<u8>)> {
    Seq::new(v.len(), |i: int| (sc[i], v[i]@))
}

/// The special token that `candidates` and `fallback` pick.
fn detect_special_token(
    vocab: &Vec<Vec<u8>>,
    order: &Vec<usize>,
    candidates: &Vec<Vec<u8>>,
    fallback: u32,
) -> (r: Option<u32>)
    requires
        is_key_order(key_bytes(vocab@), order@),
        ids_in_range(order@, vocab@.len() as int),
        vocab@.len() <= u32::MAX,
    ensures
        r == special_token(key_bytes(vocab@), key_bytes(candidates@), fallback),
        r matches Some(t) ==> t < vocab@.len(),
{
    let ghost k = key_bytes(vocab@);
    let mut i: usize = 0;
    assert(key_bytes(candidates@).skip(0) =~= key_bytes(candidates@));
    while i < candidates.len()
        invariant
            i <= candidates@.len(),
            k == key_bytes(vocab@),
            is_key_order(k, order@),
            ids_in_range(order@, vocab@.len() as int),
            vocab@.len() <= u32::MAX,
            special_token(k, key_bytes(candidates@), fallback) == special_token(
                k,
                key_bytes(candidates@).skip(i as int),
                fallback,
            ),
        decreases candidates@.len() - i,
    {
        assert(key_bytes(candidates@).skip(i as int).drop_first() =~= key_bytes(candidates@).skip(i + 1));
        if let Some(id) = find_last(vocab, order, candidates[i].as_slice()) {
            proof {
                lemma_last_index_below(k, candidates@[i as int]@, k.len() as int);
            }
            return Some(id as u32);
        }
        i += 1;
    }
    if (fallback as usize) < vocab.len() {
        Some(fallback)
    } else {
        None
    }
}

impl Tokenizer {
    /// Loads a vocabulary of `vocab_size` entries from the front of
    /// `reader`, then picks the special tokens: BOS is `<s>` or
    /// `<|begin_of_text|>`, else id 1; EOS is `</s>` or `<|end_of_text|>`,
    /// else id 2; UNK is `<unk>`, else id 0 (each only if it is an id of the
    /// vocabulary). Input that ends early gives `Io`; a zero maximum length
    /// gives `InvalidHeader`; an entry with a negative length or one above
    /// the maximum gives `InvalidEntry` with its index.
    pub fn from_reader(vocab_size: usize, reader: &mut &[u8]) -> (r: Result<Self, TokenizerError>)
        requires
            vocab_size <= u32::MAX,
        ensures
            final(reader)@ == old(reader)@.skip(old(reader)@.len() - final(reader)@.len()),
            match parse_vocab(old(reader)@, vocab_size as int) {
                Err(LoadFault::Truncated) => r matches Err(TokenizerError::Io(_)),
                Err(LoadFault::ZeroMaxLength) => r matches Err(TokenizerError::InvalidHeader(m))
                    && m@ == "max_token_length must be greater than zero"@,
                Err(LoadFault::NegativeLength { index }) => r matches Err(
                    TokenizerError::InvalidEntry { index: i, reason },
                ) && i == index && reason@ == "token length must not be negative"@,
                Err(LoadFault::TooLong { index }) => r matches Err(
                    TokenizerError::InvalidEntry { index: i, reason },
                ) && i == index && reason@ == "token length exceeds max_token_length"@,
                Ok(((max, entries), end)) => r matches Ok(t) && {
                    &&& t.max_len() == max
                    &&& t.keys() == entries.map_values(|e: (u32, Seq<u8>)| e.1)
                    &&& t.score_bits() == entries.map_values(|e: (u32, Seq<u8>)| e.0)
                    &&& t.bos() == special_token(t.keys(), seq![bos_text(), bos_text_alt()], 1)
                    &&& t.eos() == special_token(t.keys(), seq![eos_text(), eos_text_alt()], 2)
                    &&& t.unk() == special_token(t.keys(), seq![unk_text()], 0)
                    &&& final(reader)@ == old(reader)@.skip(end)
                },
            },
    {
        let ghost b = reader@;
        let bytes: &[u8] = *reader;
        if bytes.len() < 4 {
            return Err(TokenizerError::Io(unexpected_eof("failed to fill whole buffer")));
        }
        let max_token_length = u32_at(bytes, 0) as usize;
        if max_token_length == 0 {
            let (_, rest) = bytes.split_at(4);
            *reader = rest;
            return Err(TokenizerError::InvalidHeader("max_token_length must be greater than zero"));
        }
        let ghost max = spec_u32_at(b, 0);
        let mut vocab: Vec<Vec<u8>> = Vec::new();
        let mut scores: Vec<u32> = Vec::new();
        let mut pos: usize = 4;
        let mut index: usize = 0;
        assert(entries_view(vocab@, scores@) =~= Seq::<(u32, Seq<u8>)>::empty());
        proof {
            if let Ok((all, end)) = parse_entries(b, 4, max, 0, vocab_size as int) {
                assert(Seq::<(u32, Seq<u8>)>::empty().add(all) =~= all);
            }
        }
        while index < vocab_size
            invariant
                b == bytes@,
                b == old(reader)@,
                max == spec_u32_at(b, 0),
                max > 0,
                b.len() >= 4,
                max_token_length == max,
                4 <= pos <= b.len(),
                index <= vocab_size,
                vocab@.len() == index,
                scores@.len() == index,
                parse_entries(b, 4, max, 0, vocab_size as int) == match parse_entries(
                    b,
                    pos as int,
                    max,
                    index as int,
                    vocab_size as int,
                ) {
                    Ok((rest, end)) => Ok((entries_view(vocab@, scores@).add(rest), end)),
                    Err(e) => Err(e),
                },
                *reader == bytes,
            decreases vocab_size - index,
        {
            if bytes.len() - pos < 8 {
                let (_, rest) = bytes.split_at(bytes.len());
                *reader = rest;

                return Err(TokenizerError::Io(unexpected_eof("failed to fill whole buffer")));
            }
            let score = u32_at(bytes, pos);
            let length = i32_at(bytes, pos + 4);
            if length < 0 {
                let (_, rest) = bytes.split_at(pos + 8);
                *reader = rest;
                return Err(
                    TokenizerError::InvalidEntry { index, reason: "token length must not be negative" },
                );
            }
            let length = length as usize;
            if length > max_token_length {
                let (_, rest) = bytes.split_at(pos + 8);
                *reader = rest;
                return Err(
                    TokenizerError::InvalidEntry {
                        index,
                        reason: "token length exceeds max_token_length",
                    },
                );
            }
            if length > bytes.len() - pos - 8 {
                let (_, rest) = bytes.split_at(bytes.len());
                *reader = rest;
                return Err(TokenizerError::Io(unexpected_eof("failed to fill whole buffer")));
            }
            let token = vstd::slice::slice_to_vec(&bytes[pos + 8..pos + 8 + length]);
            let ghost old_entries = entries_view(vocab@, scores@);
            scores.push(score);
            vocab.push(token);
            let ghost entry = (score, b.subrange(pos + 8, pos + 8 + length));
            assert(vocab@.last()@ == entry.1);
            assert(entries_view(vocab@, scores@) =~= old_entries.push(entry));
            proof {
                if let Ok((rest, end)) = parse_entries(b, pos + 8 + length, max, index + 1, vocab_size as int) {
                    assert(old_entries.add(seq![entry].add(rest)) =~= old_entries.push(entry).add(rest));
                }
            }
            pos = pos + 8 + length;
            index += 1;
        }
        let (_, rest) = bytes.split_at(pos);
        *reader = rest;
        let ghost all = entries_view(vocab@, scores@);
        assert(all.add(Seq::<(u32, Seq<u8>)>::empty()) =~= all);
        assert(key_bytes(vocab@) =~= all.map_values(|e: (u32, Seq<u8>)| e.1));
        assert(scores@ =~= all.map_values(|e: (u32, Seq<u8>)| e.0));
        let order = sort_ids_by_key(&vocab);
        let bos_candidates: Vec<Vec<u8>> = vec![
            vec![60u8, 115, 62],
            vec![60u8, 124, 98, 101, 103, 105, 110, 95, 111, 102, 95, 116, 101, 120, 116, 124, 62],
        ];
        let eos_candidates: Vec<Vec<u8>> = vec![
            vec![60u8, 47, 115, 62],
            vec![60u8, 124, 101, 110, 100, 95, 111, 102, 95, 116, 101, 120, 116, 124, 62],
        ];
        let unk_candidates: Vec<Vec<u8>> = vec![vec![60u8, 117, 110, 107, 62]];
        assert(key_bytes(bos_candidates@) =~= seq![bos_text(), bos_text_alt()]);
        assert(key_bytes(eos_candidates@) =~= seq![eos_text(), eos_text_alt()]);
        assert(key_bytes(unk_candidates@) =~= seq![unk_text()]);
        let bos_token = detect_special_token(&vocab, &order, &bos_candidates, 1);
        let eos_token = detect_special_token(&vocab, &order, &eos_candidates, 2);
        let unk_token = detect_special_token(&vocab, &order, &unk_candidates, 0);
        Ok(Tokenizer { vocab, scores, order, max_token_length, bos_token, eos_token, unk_token })
    }
}

/// The position and token of the best candidate so far.
spec fn best_so_far(best_index: Option<usize>, best_token_id: u32) -> Option<(int, int)> {
    match best_index {
        Some(i) => Some((i as int, best_token_id as int)),
        None => None,
    }
}

/// Replaces best pairs of pieces by their entries until none is left.
fn merge_best_pairs(pieces: &mut Vec<Piece>, tokenizer: &Tokenizer)
    ensures
        pieces_view(final(pieces)@) == tokenizer.merged(pieces_view(old(pieces)@)),
{
    proof {
        use_type_invariant(tokenizer);
    }
    let ghost lk = tokenizer.lookup_fn();
    let ghost sc = tokenizer.score_bits();
    let ghost lim = Some(tokenizer.max_len() as int);
    let ghost target = tokenizer.merged(pieces_view(pieces@));
    loop
        invariant
            lk == tokenizer.lookup_fn(),
            sc == tokenizer.score_bits(),
            lim == Some(tokenizer.max_len() as int),
            target == tokenizer.merged(pieces_view(old(pieces)@)),
            tokenizer.merged(pieces_view(pieces@)) == target,
        ensures
            pieces_view(pieces@) == target,
        decreases pieces@.len(),
    {
        let ghost v = pieces_view(pieces@);
        let mut best_index: Option<usize> = None;
        let mut best_token_id: u32 = 0;
        let mut best_score: u32 = NEG_INFINITY_BITS;
        let mut best_bytes: Vec<u8> = Vec::new();
        let n = pieces.len();
        let mut index: usize = 0;
        while index + 1 < n
            invariant
                n == pieces@.len(),
                v == pieces_view(pieces@),
                index + 1 <= n || index == 0,
                lk == tokenizer.lookup_fn(),
                sc == tokenizer.score_bits(),
                lim == Some(tokenizer.max_len() as int),
                best_pair(v, lk, sc, lim, NEG_INFINITY_BITS) == scan_pairs(
                    v,
                    lk,
                    sc,
                    lim,
                    index as int,
                    best_score,
                    best_so_far(best_index, best_token_id),
                ),
                best_index matches Some(i) ==> {
                    &&& i + 1 < n
                    &&& best_bytes@ == v[i as int].1 + v[i + 1].1
                    &&& lk(best_bytes@) == Some(best_token_id as int)
                    &&& best_token_id < sc.len()
                },
            decreases n - index,
        {
            proof {
                use_type_invariant(tokenizer);
            }
            let left = &pieces[index].bytes;
            let right = &pieces[index + 1].bytes;
            assert(v[index as int].1 == left@ && v[index + 1].1 == right@);
            if right.len() > tokenizer.max_token_length || left.len() > tokenizer.max_token_length
                - right.len() {
            } else {
                let candidate = join_bytes(left.as_slice(), right.as_slice());
                if let Some(token_id) = tokenizer.lookup_id(candidate.as_slice()) {
                    let score = tokenizer.scores[token_id as usize];
                    if f32_gt(score, best_score) {
                        best_score = score;
                        best_index = Some(index);
                        best_token_id = token_id;
                        best_bytes = candidate;
                    }
                }
            }
            index += 1;
        }
        proof {
            lemma_scan_pairs(v, lk, sc, lim, 0, NEG_INFINITY_BITS, None);
        }
        match best_index {
            None => {
                assert(tokenizer.merged(v) == v);
                break;
            },
            Some(i) => {
                let ghost before = pieces@;
                pieces.set(i, Piece { token_id: best_token_id, bytes: best_bytes });
                pieces.remove(i + 1);
                assert(pieces_view(pieces@) =~= merge_at(v, i as int, best_token_id as int));
            },
        }
    }
}

impl Tokenizer {
    /// The token of the entry spelling `b`, if there is one.
    fn lookup_id(&self, b: &[u8]) -> (r: Option<u32>)
        ensures
            r matches Some(t) ==> self.lookup(b@) == Some(t as int) && (t as int) < self.score_bits().len(),
            r is None <==> self.lookup(b@) is None,
    {
        proof {
            use_type_invariant(self);
            lemma_last_index_below(self.keys(), b@, self.keys().len() as int);
        }
        match find_last(&self.vocab, &self.order, b) {
            Some(i) => Some(i as u32),
            None => None,
        }
    }

    /// The number of entries.
    pub fn vocab_size(&self) -> (n: usize)
        ensures
            n == self.keys().len(),
            n <= u32::MAX,
    {
        proof {
            use_type_invariant(self);
        }
        self.vocab.len()
    }

    /// The maximum token length.
    pub fn max_token_length(&self) -> (n: usize)
        ensures
            n == self.max_len(),
    {
        self.max_token_length
    }

    /// The beginning-of-sequence token.
    pub fn bos_token(&self) -> (t: Option<u32>)
        ensures
            t == self.bos(),
    {
        self.bos_token
    }

    /// The end-of-sequence token.
    pub fn eos_token(&self) -> (t: Option<u32>)
        ensures
            t == self.eos(),
    {
        self.eos_token
    }

    /// The unknown token.
    pub fn unk_token(&self) -> (t: Option<u32>)
        ensures
            t == self.unk(),
    {
        self.unk_token
    }

    /// The bytes of a token, if it is an id of the vocabulary.
    pub fn token_bytes(&self, token_id: u32) -> (r: Option<&[u8]>)
        ensures
            (token_id as int) < self.keys().len() ==> (r matches Some(b) && b@ == self.keys()[token_id as int]),
            (token_id as int) >= self.keys().len() ==> r is None,
    {
        if (token_id as usize) < self.vocab.len() {
            Some(self.vocab[token_id as usize].as_slice())
        } else {
            None
        }
    }

    /// The token a byte falls back to: its own entry, else the unknown token.
    fn byte_fallback_token(&self, byte: u8) -> (r: Result<u32, TokenizerError>)
        ensures
            match self.byte_token(byte) {
                Some(id) => r matches Ok(t) && t as int == id,
                None => r matches Err(TokenizerError::MissingByteFallback(b)) && b == byte,
            },
    {
        let single = vec![byte];
        assert(single@ =~= seq![byte]);
        if let Some(token_id) = self.lookup_id(single.as_slice()) {
            return Ok(token_id);
        }
        if let Some(unk_token) = self.unk_token {
            return Ok(unk_token);
        }
        Err(TokenizerError::MissingByteFallback(byte))
    }

    /// The pieces of the bytes of one character.
    fn encode_piece(&self, bytes: &[u8]) -> (r: Result<Vec<Piece>, TokenizerError>)
        ensures
            match self.bytes_pieces(bytes@) {
                Ok(ps) => r matches Ok(v) && pieces_view(v@) == ps,
                Err(b) => r matches Err(TokenizerError::MissingByteFallback(x)) && x == b,
            },
    {
        proof {
            use_type_invariant(self);
        }
        if let Some(token_id) = self.lookup_id(bytes) {
            let v = vec![Piece { token_id, bytes: vstd::slice::slice_to_vec(bytes) }];
            assert(pieces_view(v@) =~= seq![(token_id as int, bytes@)]);
            return Ok(v);
        }
        let mut pieces: Vec<Piece> = Vec::new();
        let mut i: usize = 0;
        assert(bytes@.skip(0) =~= bytes@);
        proof {
            if let Ok(all) = self.byte_pieces(bytes@) {
                assert(Seq::<SpecPiece>::empty().add(all) =~= all);
            }
        }
        while i < bytes.len()
            invariant
                i <= bytes@.len(),
                self.lookup(bytes@) is None,
                self.byte_pieces(bytes@) == match self.byte_pieces(bytes@.skip(i as int)) {
                    Ok(rest) => Ok(pieces_view(pieces@).add(rest)),
                    Err(e) => Err(e),
                },
            decreases bytes@.len() - i,
        {
            let byte = bytes[i];
            assert(bytes@.skip(i as int).drop_first() =~= bytes@.skip(i + 1));
            let token_id = match self.byte_fallback_token(byte) {
                Ok(t) => t,
                Err(e) => return Err(e),
            };
            let ghost before = pieces_view(pieces@);
            let single = vec![byte];
            assert(single@ =~= seq![byte]);
            pieces.push(Piece { token_id, bytes: single });
            let ghost p = (token_id as int, seq![byte]);
            assert(pieces_view(pieces@) =~= before.push(p));
            proof {
                if let Ok(rest) = self.byte_pieces(bytes@.skip(i + 1)) {
                    assert(before.add(seq![p].add(rest)) =~= before.push(p).add(rest));
                }
            }
            i += 1;
        }
        assert(bytes@.skip(i as int) =~= Seq::<u8>::empty());
        assert(pieces_view(pieces@).add(Seq::<SpecPiece>::empty()) =~= pieces_view(pieces@));
        Ok(pieces)
    }

    /// Encodes `text`: the BOS token first if `add_bos`, each character as
    /// its entry or byte by byte (a byte without an entry falls back to the
    /// unknown token), best pairs merged, and the EOS token last if
    /// `add_eos`. A missing BOS or EOS token, or a byte with neither an entry
    /// nor an unknown token, is an error.
    pub fn encode(&self, text: &str, add_bos: bool, add_eos: bool) -> (r: Result<
        Vec<u32>,
        TokenizerError,
    >)
        ensures
            match self.spec_encode(text@, add_bos, add_eos) {
                Ok(ids) => r matches Ok(v) && v@ == ids,
                Err(EncodeFault::MissingBos) => r matches Err(TokenizerError::MissingSpecialToken(n))
                    && n@ == "BOS"@,
                Err(EncodeFault::MissingByte(b)) => r matches Err(
                    TokenizerError::MissingByteFallback(x),
                ) && x == b,
                Err(EncodeFault::MissingEos) => r matches Err(TokenizerError::MissingSpecialToken(n))
                    && n@ == "EOS"@,
            },
    {
        proof {
            use_type_invariant(self);
        }
        let mut pieces: Vec<Piece> = Vec::new();
        if add_bos {
            let bos = match self.bos_token {
                Some(bos) => bos,
                None => return Err(TokenizerError::MissingSpecialToken("BOS")),
            };
            let bytes = vstd::slice::slice_to_vec(self.vocab[bos as usize].as_slice());
            pieces.push(Piece { token_id: bos, bytes });
        }
        let ghost head = pieces_view(pieces@);
        let mut body: Vec<Piece> = Vec::new();
        let n = text.unicode_len();
        let mut i: usize = 0;
        assert(text@.skip(0) =~= text@);
        proof {
            if let Ok(all) = self.text_pieces(text@) {
                assert(Seq::<SpecPiece>::empty().add(all) =~= all);
            }
        }
        while i < n
            invariant
                n == text@.len(),
                i <= n,
                add_bos ==> self.bos() is Some,
                self.text_pieces(text@) == match self.text_pieces(text@.skip(i as int)) {
                    Ok(rest) => Ok(pieces_view(body@).add(rest)),
                    Err(e) => Err(e),
                },
            decreases n - i,
        {
            let c = text.get_char(i);
            let b = char_utf8(c);
            assert(text@.skip(i as int).drop_first() =~= text@.skip(i + 1));
            let mut ps = match self.encode_piece(b.as_slice()) {
                Ok(ps) => ps,
                Err(e) => return Err(e),
            };
            let ghost before = pieces_view(body@);
            let ghost added = pieces_view(ps@);
            body.append(&mut ps);
            assert(pieces_view(body@) =~= before.add(added));
            proof {
                if let Ok(rest) = self.text_pieces(text@.skip(i + 1)) {
                    assert(before.add(added.add(rest)) =~= before.add(added).add(rest));
                }
            }
            i += 1;
        }
        assert(text@.skip(i as int) =~= Seq::<char>::empty());
        assert(pieces_view(body@).add(Seq::<SpecPiece>::empty()) =~= pieces_view(body@));
        let ghost body_view = pieces_view(body@);
        pieces.append(&mut body);
        assert(pieces_view(pieces@) =~= head.add(body_view));
        assert(self.text_pieces(text@) == Ok::<Seq<SpecPiece>, u8>(body_view));
        assert(add_bos ==> head =~= seq![(self.bos().unwrap() as int, self.keys()[self.bos().unwrap() as int])]);
        assert(!add_bos ==> head =~= Seq::<SpecPiece>::empty());
        merge_best_pairs(&mut pieces, self);
        let mut token_ids: Vec<u32> = Vec::new();
        let mut k: usize = 0;
        while k < pieces.len()
            invariant
                k <= pieces@.len(),
                token_ids@ == piece_ids(pieces_view(pieces@)).take(k as int),
            decreases pieces@.len() - k,
        {
            token_ids.push(pieces[k].token_id);
            assert(piece_ids(pieces_view(pieces@)).take(k + 1) =~= piece_ids(pieces_view(pieces@)).take(k as int).push(pieces@[k as int].token_id));
            k += 1;
        }
        assert(piece_ids(pieces_view(pieces@)).take(k as int) =~= piece_ids(pieces_view(pieces@)));
        assert(piece_ids(pieces_view(pieces@)) == piece_ids(self.merged(head.add(body_view))));
        if add_eos {
            match self.eos_token {
                Some(eos) => token_ids.push(eos),
                None => return Err(TokenizerError::MissingSpecialToken("EOS")),
            }
        }
        Ok(token_ids)
    }

    /// The text of a token: its bytes decoded, ill-formed UTF-8 replaced.
    pub fn decode(&self, token_id: u32) -> (r: Result<String, TokenizerError>)
        ensures
            (token_id as int) < self.keys().len() ==> (r matches Ok(s) && s@ == lossy_text(
                self.keys()[token_id as int],
            )),
            (token_id as int) >= self.keys().len() ==> (r matches Err(
                TokenizerError::TokenOutOfRange(t),
            ) && t == token_id),
    {
        match self.token_bytes(token_id) {
            Some(bytes) => Ok(utf8_lossy(bytes)),
            None => Err(TokenizerError::TokenOutOfRange(token_id)),
        }
    }

    /// The text of a sequence of tokens: their bytes joined, then decoded,
    /// ill-formed UTF-8 replaced. The first token outside the vocabulary is
    /// an error.
    pub fn decode_tokens(&self, token_ids: &[u32]) -> (r: Result<String, TokenizerError>)
        ensures
            match self.spec_token_text(token_ids@) {
                Ok(b) => r matches Ok(s) && s@ == lossy_text(b) && (valid_utf8(b) ==> s@ == decode_utf8(b)),
                Err(t) => r matches Err(TokenizerError::TokenOutOfRange(x)) && x == t,
            },
    {
        let mut bytes: Vec<u8> = Vec::new();
        let mut i: usize = 0;
        assert(token_ids@.skip(0) =~= token_ids@);
        proof {
            if let Ok(all) = self.spec_token_text(token_ids@) {
                assert(Seq::<u8>::empty().add(all) =~= all);
            }
        }
        while i < token_ids.len()
            invariant
                i <= token_ids@.len(),
                self.spec_token_text(token_ids@) == match self.spec_token_text(token_ids@.skip(i as int)) {
                    Ok(rest) => Ok(bytes@.add(rest)),
                    Err(e) => Err(e),
                },
            decreases token_ids@.len() - i,
        {
            let token_id = token_ids[i];
            assert(token_ids@.skip(i as int).drop_first() =~= token_ids@.skip(i + 1));
            let token = match self.token_bytes(token_id) {
                Some(token) => token,
                None => return Err(TokenizerError::TokenOutOfRange(token_id)),
            };
            let ghost before = bytes@;
            bytes = join_bytes(bytes.as_slice(), token);
            proof {
                if let Ok(rest) = self.spec_token_text(token_ids@.skip(i + 1)) {
                    assert(before.add(token@.add(rest)) =~= before.add(token@).add(rest));
                }
            }
            i += 1;
        }
        assert(token_ids@.skip(i as int) =~= Seq::<u32>::empty());
        assert(bytes@.add(Seq::<u8>::empty()) =~= bytes@);
        Ok(utf8_lossy(bytes.as_slice()))
    }
}

/// Whether every character of `text` encodes without the unknown token:
/// its bytes are an entry, or each of its bytes is.
pub open spec fn spells_known(t: Tokenizer, text: Seq<char>) -> bool {
    forall|i: int| 0 <= i < text.len() ==> {
        let b = #[trigger] encode_scalar(text[i] as u32);
        t.lookup(b) is Some || forall|j: int| 0 <= j < b.len() ==> t.lookup(seq![b[j]]) is Some
    }
}

/// The lookup of a tokenizer only finds entries that spell what was looked
/// up.
proof fn lemma_lookup_sound(t: Tokenizer)
    ensures
        sound_lookup(t.keys(), t.lookup_fn()),
{
    assert forall|b: Seq<u8>| #[trigger] t.lookup_fn()(b) is Some implies 0 <= t.lookup_fn()(b).unwrap()
        < t.keys().len() && t.keys()[t.lookup_fn()(b).unwrap()] == b by {
        lemma_last_index_below(t.keys(), b, t.keys().len() as int);
    }
}

/// Bytes that each have an entry become one faithful piece each, spelling
/// them.
proof fn lemma_byte_pieces(t: Tokenizer, b: Seq<u8>)
    requires
        forall|j: int| 0 <= j < b.len() ==> t.lookup(#[trigger] seq![b[j]]) is Some,
    ensures
        t.byte_pieces(b) matches Ok(ps) && faithful(t.keys(), ps) && spelled(ps) == b,
    decreases b.len(),
{
    lemma_lookup_sound(t);
    if b.len() > 0 {
        let rest = b.drop_first();
        assert forall|j: int| 0 <= j < rest.len() implies t.lookup(#[trigger] seq![rest[j]]) is Some by {
            assert(rest[j] == b[j + 1]);
        }
        lemma_byte_pieces(t, rest);
        assert(t.lookup(seq![b[0]]) is Some);
        let id = t.lookup(seq![b[0]]).unwrap();
        assert(t.lookup_fn()(seq![b[0]]) == Some(id));
        let ps = t.byte_pieces(rest).unwrap();
        let p = (id, seq![b[0]]);
        lemma_spelled_concat(seq![p], ps);
        lemma_spelled_one(p);
        assert(seq![b[0]] + rest =~= b);
        assert forall|i: int| 0 <= i < (seq![p] + ps).len() implies 0 <= #[trigger] (seq![p] + ps)[i].0
            < t.keys().len() && t.keys()[(seq![p] + ps)[i].0] == (seq![p] + ps)[i].1 by {
            if i > 0 {
                assert((seq![p] + ps)[i] == ps[i - 1]);
            }
        }
    }
}

/// The pieces of a text whose characters all encode without the unknown
/// token are faithful and spell its UTF-8 encoding.
proof fn lemma_text_pieces(t: Tokenizer, text: Seq<char>)
    requires
        spells_known(t, text),
    ensures
        t.text_pieces(text) matches Ok(ps) && faithful(t.keys(), ps) && spelled(ps) == encode_utf8(text),
    decreases text.len(),
{
    lemma_lookup_sound(t);
    if text.len() > 0 {
        let rest = text.drop_first();
        assert forall|i: int| 0 <= i < rest.len() implies {
            let b = #[trigger] encode_scalar(rest[i] as u32);
            t.lookup(b) is Some || forall|j: int| 0 <= j < b.len() ==> t.lookup(seq![b[j]]) is Some
        } by {
            assert(rest[i] == text[i + 1]);
            assert(encode_scalar(text[i + 1] as u32) == encode_scalar(rest[i] as u32));
        }
        lemma_text_pieces(t, rest);
        let b = encode_scalar(text[0] as u32);
        assert(t.lookup(b) is Some || forall|j: int| 0 <= j < b.len() ==> t.lookup(seq![b[j]]) is Some);
        let first = if t.lookup(b) is Some {
            let id = t.lookup(b).unwrap();
            assert(t.lookup_fn()(b) == Some(id));
            lemma_spelled_one((id, b));
            seq![(id, b)]
        } else {
            lemma_byte_pieces(t, b);
            t.byte_pieces(b).unwrap()
        };
        assert(t.char_pieces(text[0]) == Ok::<Seq<SpecPiece>, u8>(first));
        let ps = t.text_pieces(rest).unwrap();
        lemma_spelled_concat(first, ps);
        assert forall|i: int| 0 <= i < (first + ps).len() implies 0 <= #[trigger] (first + ps)[i].0
            < t.keys().len() && t.keys()[(first + ps)[i].0] == (first + ps)[i].1 by {
            if i < first.len() {
                assert((first + ps)[i] == first[i]);
            } else {
                assert((first + ps)[i] == ps[i - first.len()]);
            }
        }
    }
}

/// Faithful pieces spell, token by token, the text they stand for.
proof fn lemma_token_text(t: Tokenizer, ps: Seq<SpecPiece>)
    requires
        faithful(t.keys(), ps),
        t.keys().len() <= u32::MAX,
    ensures
        t.spec_token_text(piece_ids(ps)) == Ok::<Seq<u8>, u32>(spelled(ps)),
    decreases ps.len(),
{
    if ps.len() > 0 {
        let rest = ps.drop_first();
        assert forall|i: int| 0 <= i < rest.len() implies 0 <= #[trigger] rest[i].0 < t.keys().len()
            && t.keys()[rest[i].0] == rest[i].1 by {
            assert(rest[i] == ps[i + 1]);
        }
        lemma_token_text(t, rest);
        assert(piece_ids(ps).drop_first() =~= piece_ids(rest));
        assert(ps[0].0 < t.keys().len());
        assert(piece_ids(ps)[0] as int == ps[0].0);
        lemma_spelled_concat(seq![ps[0]], rest);
        lemma_spelled_one(ps[0]);
        assert(seq![ps[0]] + rest =~= ps);
    } else {
        assert(piece_ids(ps) =~= Seq::<u32>::empty());
        assert(piece_bytes(ps) =~= Seq::<Seq<u8>>::empty());
    }
}

/// Encoding a text (without BOS or EOS) and decoding the tokens gives the
/// text back, when no byte of it falls back to the unknown token: the
/// tokens spell its UTF-8 encoding, whose decoding is the text.
pub proof fn encode_decode_roundtrip(t: Tokenizer, text: Seq<char>)
    requires
        spells_known(t, text),
        t.keys().len() <= u32::MAX,
    ensures
        t.spec_encode(text, false, false) matches Ok(ids) && t.spec_token_text(ids) == Ok::<
            Seq<u8>,
            u32,
        >(encode_utf8(text)) && decode_utf8(encode_utf8(text)) == text,
{
    lemma_text_pieces(t, text);
    let ps = t.text_pieces(text).unwrap();
    lemma_lookup_sound(t);
    lemma_merge_all_faithful(ps, t.lookup_fn(), t.score_bits(), Some(t.max_len() as int), NEG_INFINITY_BITS, t.keys());
    lemma_merge_all(ps, t.lookup_fn(), t.score_bits(), Some(t.max_len() as int), NEG_INFINITY_BITS);
    let merged = t.merged(ps);
    lemma_token_text(t, merged);
    encode_utf8_decode_utf8(text);
}

} // verus!
