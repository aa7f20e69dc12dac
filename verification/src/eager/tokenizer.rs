//! The eager tokenizer: the same file format and character chunking as the
//! mapped one, with `usize` token ids, a required dummy-prefix entry, and
//! decoding of single tokens (raw byte entries `<0xHH>` included).

use vstd::prelude::*;
use vstd::utf8::{encode_scalar, encode_utf8, valid_utf8, decode_utf8, decode_utf8_encode_utf8};
use vstd::string::{StringExecFns, StrSliceExecFns};
use crate::lexicon::{last_index, lemma_last_index_below};
use crate::bpe::{SpecPiece, scan_pairs, best_pair, merge_at, merge_all, lemma_scan_pairs, lemma_merge_all, lemma_merge_all_faithful, faithful, spelled,
    lemma_spelled_concat, lemma_spelled_one, piece_bytes};
use crate::score::{f32_gt, NEG_INFINITY_BITS};
use crate::text::{join_bytes, str_from_utf8, string_from_utf8, utf8_lossy, lossy_text};
use crate::le_bytes::{u32_at, spec_u32_at};
use crate::io_error::{unexpected_eof, invalid_data};
use crate::text::token_out_of_range_message;
use crate::mapped::tokenizer::{
    SortedVocab, vocab_keys, chunk_end, is_continuation, lemma_chunk_end, lookup, found_fn, parse_entries,
    parse_file, lemma_found_sound, chunks_known,
};

verus! {

/// A vocabulary with its scores and its lookup index.
#[derive(Debug)]
pub struct Tokenizer {
    vocab: Vec<String>,
    vocab_scores: Vec<u32>,
    sorted_vocab: SortedVocab,
    max_token_length: usize,
}

/// Byte fallback: each byte `x` becomes token `x + 3`.
pub open spec fn fallback_ids(c: Seq<u8>) -> Seq<usize> {
    c.map_values(|x: u8| (x + 3) as usize)
}

/// The tokens of one chunk: its entry when it is valid UTF-8 and has one,
/// else one fallback token per byte.
pub open spec fn chunk_tokens(keys: Seq<Seq<u8>>, c: Seq<u8>) -> Seq<usize> {
    if valid_utf8(c) && lookup(keys, c) is Some {
        seq![lookup(keys, c).unwrap() as usize]
    } else {
        fallback_ids(c)
    }
}

/// The tokens of the bytes from `i` on, chunk by chunk.
pub open spec fn chunk_tokens_from(keys: Seq<Seq<u8>>, b: Seq<u8>, i: int) -> Seq<usize>
    decreases b.len() - i,
{
    if i < 0 || i >= b.len() {
        Seq::empty()
    } else {
        let e = chunk_end(b, i, i + 1);
        if e <= i || e > b.len() {
            Seq::empty()
        } else {
            chunk_tokens(keys, b.subrange(i, e)) + chunk_tokens_from(keys, b, e)
        }
    }
}

/// The pieces that token ids stand for.
pub open spec fn token_pieces(keys: Seq<Seq<u8>>, ids: Seq<usize>) -> Seq<SpecPiece> {
    ids.map_values(|t: usize| (t as int, keys[t as int]))
}

/// Every id names an entry.
pub open spec fn all_below(ids: Seq<usize>, n: int) -> bool {
    forall|i: int| 0 <= i < ids.len() ==> (#[trigger] ids[i] as int) < n
}

/// Why encoding fails.
pub enum EncodeFault {
    /// The text is not empty and no entry is a single space.
    MissingDummyPrefix,
    /// A token to merge is not an entry.
    TokenOutOfRange,
}

/// The tokens before merging: BOS (id 1) if asked for, the single-space
/// entry unless the text is empty, then the chunks of the text.
pub open spec fn start_tokens(keys: Seq<Seq<u8>>, text: Seq<u8>, bos: bool) -> Result<Seq<usize>, EncodeFault> {
    let head: Seq<usize> = if bos {
        seq![1usize]
    } else {
        Seq::empty()
    };
    if text.len() == 0 {
        Ok(head)
    } else {
        match lookup(keys, seq![32u8]) {
            None => Err(EncodeFault::MissingDummyPrefix),
            Some(id) => Ok(head + seq![id as usize] + chunk_tokens_from(keys, text, 0)),
        }
    }
}

/// The tokens of a text: the start tokens with best pairs merged (highest
/// score first, the first pair on ties), then EOS (id 2) if asked for.
/// Merging looks at every token when there are two or more, and each must
/// be an entry.
pub open spec fn spec_encode(keys: Seq<Seq<u8>>, scores: Seq<u32>, text: Seq<u8>, bos: bool, eos: bool) -> Result<
    Seq<usize>,
    EncodeFault,
> {
    match start_tokens(keys, text, bos) {
        Err(e) => Err(e),
        Ok(start) => if start.len() >= 2 && !all_below(start, keys.len() as int) {
            Err(EncodeFault::TokenOutOfRange)
        } else {
            let merged = merge_all(token_pieces(keys, start), found_fn(keys, true), scores, None, NEG_INFINITY_BITS).map_values(
                |p: SpecPiece| p.0 as usize,
            );
            Ok(
                if eos {
                    merged.push(2usize)
                } else {
                    merged
                },
            )
        },
    }
}

/// The value of a hexadecimal digit.
pub open spec fn hex_value(c: u8) -> Option<int> {
    if 48 <= c <= 57 {
        Some(c - 48)
    } else if 97 <= c <= 102 {
        Some(c - 87)
    } else if 65 <= c <= 70 {
        Some(c - 55)
    } else {
        None
    }
}

/// `u8::from_str_radix(s, 16)` on two bytes: an optional `+` and one
/// digit, or two digits.
pub open spec fn hex_pair(a: u8, b: u8) -> Option<u8> {
    if a == 43 {
        match hex_value(b) {
            Some(v) => Some(v as u8),
            None => None,
        }
    } else {
        match (hex_value(a), hex_value(b)) {
            (Some(x), Some(y)) => Some((16 * x + y) as u8),
            _ => None,
        }
    }
}

/// The byte that an entry of the form `<0xHH>` stands for.
pub open spec fn raw_byte(p: Seq<u8>) -> Option<u8> {
    if p.len() == 6 && p[0] == 60 && p[1] == 48 && p[2] == 120 && p[5] == 62 {
        hex_pair(p[3], p[4])
    } else {
        None
    }
}

/// The text of a token after `prev`: its entry, without a leading space
/// right after BOS; an entry `<0xHH>` is that byte as text.
pub open spec fn decoded(entry: Seq<char>, prev: usize) -> Seq<char> {
    let p = if prev == 1 && entry.len() > 0 && entry[0] == ' ' {
        entry.drop_first()
    } else {
        entry
    };
    match raw_byte(encode_utf8(p)) {
        Some(b) => lossy_text(seq![b]),
        None => p,
    }
}

/// A single byte that prints: graphic ASCII or ASCII whitespace.
pub open spec fn printable_byte(b: u8) -> bool {
    (0x21 <= b <= 0x7e) || b == 0x20 || b == 0x09 || b == 0x0a || b == 0x0c || b == 0x0d
}

/// What `safe_decode` keeps: nothing for an empty piece or for a single
/// byte that does not print; the piece otherwise.
pub open spec fn safe_piece(p: Seq<char>) -> Option<Seq<char>> {
    let b = encode_utf8(p);
    if b.len() == 0 {
        None
    } else if b.len() == 1 && !printable_byte(b[0]) {
        None
    } else {
        Some(p)
    }
}

/// `u8::from_str_radix(digits, 16)` for the two bytes of a `<0xHH>` entry.
fn parse_hex_pair(a: u8, b: u8) -> (r: Option<u8>)
    ensures
        r == hex_pair(a, b),
{
    let lo = hex_digit(b);
    if a == 43 {
        return match lo {
            Some(v) => Some(v),
            None => None,
        };
    }
    match (hex_digit(a), lo) {
        (Some(x), Some(y)) => Some(16 * x + y),
        _ => None,
    }
}

/// The value of a hexadecimal digit.
fn hex_digit(c: u8) -> (r: Option<u8>)
    ensures
        match hex_value(c) {
            Some(v) => r == Some(v as u8),
            None => r is None,
        },
{
    if 48 <= c && c <= 57 {
        Some(c - 48)
    } else if 97 <= c && c <= 102 {
        Some(c - 87)
    } else if 65 <= c && c <= 70 {
        Some(c - 55)
    } else {
        None
    }
}

/// The byte that an entry of the form `<0xHH>` stands for: six bytes,
/// `<0x`, two hexadecimal digits (or `+` and one), `>`.
pub fn parse_raw_byte_piece(piece: &str) -> (r: Option<u8>)
    ensures
        r == raw_byte(encode_utf8(piece@)),
{
    let b = piece.as_bytes();
    if b.len() != 6 || b[0] != 60 || b[1] != 48 || b[2] != 120 || b[5] != 62 {
        return None;
    }
    parse_hex_pair(b[3], b[4])
}

/// Entries as (score bits, bytes).
spec fn entries_of(v: Seq<String>, sc: Seq<u32>) -> Seq<(u32, Seq<u8>)> {
    Seq::new(v.len(), |i: int| (sc[i], encode_utf8(v[i]@)))
}

/// The position and token of the best candidate so far.
spec fn best_so_far(best_idx: Option<usize>, best_id: usize) -> Option<(int, int)> {
    match best_idx {
        Some(i) => Some((i as int, best_id as int)),
        None => None,
    }
}

impl Tokenizer {
    #[verifier::type_invariant]
    spec fn inv(&self) -> bool {
        &&& self.vocab@.len() == self.vocab_scores@.len()
        &&& self.sorted_vocab.keys() == vocab_keys(self.vocab@)
    }

    /// The UTF-8 bytes of every entry.
    pub closed spec fn keys(&self) -> Seq<Seq<u8>> {
        vocab_keys(self.vocab@)
    }

    /// The text of every entry.
    pub closed spec fn pieces(&self) -> Seq<String> {
        self.vocab@
    }

    /// The score bits of every entry.
    pub closed spec fn score_bits(&self) -> Seq<u32> {
        self.vocab_scores@
    }

    /// The maximum token length of the file.
    pub closed spec fn max_len(&self) -> nat {
        self.max_token_length as nat
    }

    /// The entries' texts and bytes agree.
    pub proof fn lemma_keys(&self)
        ensures
            self.keys().len() == self.pieces().len(),
            forall|i: int| 0 <= i < self.keys().len() ==> #[trigger] self.keys()[i] == encode_utf8(self.pieces()[i]@),
    {
    }

    /// Reads a tokenizer of `vocab_size` entries from the front of
    /// `reader`: `max_token_length: u32`, then per entry `score: f32`,
    /// `length: u32` and `length` bytes of UTF-8. Bytes that end early, or
    /// an entry that is not UTF-8, give an error.
    pub fn from_reader(reader: &mut &[u8], vocab_size: usize) -> (r: std::io::Result<Tokenizer>)
        ensures
            r is Err <==> parse_file(old(reader)@, vocab_size as int) is Err,
            r matches Ok(t) ==> parse_file(old(reader)@, vocab_size as int) matches Ok((max, entries)) && {
                &&& t.max_len() == max
                &&& t.keys() == entries.map_values(|e: (u32, Seq<u8>)| e.1)
                &&& t.score_bits() == entries.map_values(|e: (u32, Seq<u8>)| e.0)
            },
    {
        let bytes: &[u8] = *reader;
        let ghost b = bytes@;
        if bytes.len() < 4 {
            let (_, rest) = bytes.split_at(bytes.len());
            *reader = rest;
            return Err(unexpected_eof("failed to fill whole buffer"));
        }
        let max_token_length = u32_at(bytes, 0) as usize;
        let mut vocab: Vec<String> = Vec::new();
        let mut vocab_scores: Vec<u32> = Vec::new();
        let mut pos: usize = 4;
        let mut index: usize = 0;
        assert(entries_of(vocab@, vocab_scores@) =~= Seq::<(u32, Seq<u8>)>::empty());
        proof {
            if let Ok((all, end)) = parse_entries(b, 4, 0, vocab_size as int) {
                assert(Seq::<(u32, Seq<u8>)>::empty().add(all) =~= all);
            }
        }
        while index < vocab_size
            invariant
                b == bytes@,
                b == old(reader)@,
                b.len() >= 4,
                4 <= pos <= b.len(),
                index <= vocab_size,
                vocab@.len() == index,
                vocab_scores@.len() == index,
                parse_entries(b, 4, 0, vocab_size as int) == match parse_entries(
                    b,
                    pos as int,
                    index as int,
                    vocab_size as int,
                ) {
                    Ok((rest, end)) => Ok((entries_of(vocab@, vocab_scores@).add(rest), end)),
                    Err(e) => Err(e),
                },
            decreases vocab_size - index,
        {
            if bytes.len() - pos < 8 {
                return Err(unexpected_eof("failed to fill whole buffer"));
            }
            let score = u32_at(bytes, pos);
            let length = u32_at(bytes, pos + 4) as usize;
            if length > bytes.len() - pos - 8 {
                return Err(unexpected_eof("failed to fill whole buffer"));
            }
            let raw = vstd::slice::slice_to_vec(&bytes[pos + 8..pos + 8 + length]);
            let ghost raw_bytes = raw@;
            assert(raw_bytes == b.subrange(pos + 8, pos + 8 + length));
            let piece = match string_from_utf8(raw, "invalid utf-8 in tokenizer vocab") {
                Ok(s) => s,
                Err(e) => return Err(e),
            };
            proof {
                decode_utf8_encode_utf8(raw_bytes);
            }
            let ghost old_entries = entries_of(vocab@, vocab_scores@);
            vocab_scores.push(score);
            vocab.push(piece);
            let ghost entry = (score, raw_bytes);
            assert(entries_of(vocab@, vocab_scores@) =~= old_entries.push(entry));
            proof {
                if let Ok((rest, end)) = parse_entries(b, pos + 8 + length, index + 1, vocab_size as int) {
                    assert(old_entries.add(seq![entry].add(rest)) =~= old_entries.push(entry).add(rest));
                }
            }
            pos = pos + 8 + length;
            index += 1;
        }
        let (_, rest) = bytes.split_at(pos);
        *reader = rest;
        let ghost all = entries_of(vocab@, vocab_scores@);
        assert(all.add(Seq::<(u32, Seq<u8>)>::empty()) =~= all);
        assert(vocab_keys(vocab@) =~= all.map_values(|e: (u32, Seq<u8>)| e.1));
        assert(vocab_scores@ =~= all.map_values(|e: (u32, Seq<u8>)| e.0));
        let sorted_vocab = SortedVocab::build(&vocab);
        Ok(Tokenizer { vocab, vocab_scores, sorted_vocab, max_token_length })
    }

    /// The last entry spelling `b`.
    fn lookup_bytes(&self, b: &[u8]) -> (r: Option<usize>)
        ensures
            r matches Some(t) ==> lookup(self.keys(), b@) == Some(t as int) && (t as int) < self.keys().len(),
            r is None <==> lookup(self.keys(), b@) is None,
    {
        proof {
            use_type_invariant(self);
            lemma_last_index_below(self.keys(), b@, self.keys().len() as int);
        }
        let count = self.vocab.len();
        let r = self.sorted_vocab.find(b);
        proof {
            assert(self.keys().len() == count);
            if let Some(i) = last_index(self.keys(), b@) {
                assert(i as usize as int == i);
            }
        }
        r
    }

    /// The entry spelling `piece`.
    fn lookup(&self, piece: &str) -> (r: Option<usize>)
        ensures
            r matches Some(t) ==> lookup(self.keys(), encode_utf8(piece@)) == Some(t as int) && (t as int)
                < self.keys().len(),
            r is None <==> lookup(self.keys(), encode_utf8(piece@)) is None,
    {
        self.lookup_bytes(piece.as_bytes())
    }

    /// The text of entry `token`; an error for a token outside the
    /// vocabulary.
    fn piece(&self, token: usize) -> (r: std::io::Result<&str>)
        ensures
            (token as int) < self.pieces().len() ==> (r matches Ok(s) && s@ == self.pieces()[token as int]@),
            (token as int) >= self.pieces().len() ==> r is Err,
    {
        if token < self.vocab.len() {
            Ok(self.vocab[token].as_str())
        } else {
            Err(invalid_data(token_out_of_range_message(token)))
        }
    }
}

impl Tokenizer {
    /// Appends the tokens of `bytes`, chunk by chunk.
    fn push_chunks(&self, bytes: &[u8], tokens: &mut Vec<usize>)
        ensures
            final(tokens)@ == old(tokens)@ + chunk_tokens_from(self.keys(), bytes@, 0),
    {
        let ghost b = bytes@;
        let n = bytes.len();
        let mut i: usize = 0;
        assert(old(tokens)@ + Seq::<usize>::empty() =~= old(tokens)@);
        while i < n
            invariant
                b == bytes@,
                n == b.len(),
                i <= n,
                tokens@ + chunk_tokens_from(self.keys(), b, i as int) == old(tokens)@ + chunk_tokens_from(
                    self.keys(),
                    b,
                    0,
                ),
            decreases n - i,
        {
            let mut j: usize = i + 1;
            while j < n && (bytes[j] & 0xC0) == 0x80 && j - i < 4
                invariant
                    b == bytes@,
                    n == b.len(),
                    i < j <= n,
                    chunk_end(b, i as int, i + 1) == chunk_end(b, i as int, j as int),
                decreases n - j,
            {
                j += 1;
            }
            proof {
                lemma_chunk_end(b, i as int, i + 1);
            }
            let chunk = &bytes[i..j];
            assert(chunk@ == b.subrange(i as int, j as int));
            let ghost before = tokens@;
            let ghost ids = chunk_tokens(self.keys(), chunk@);
            let mut fallback = true;
            match str_from_utf8(chunk) {
                Some(piece) => {
                    proof {
                        decode_utf8_encode_utf8(chunk@);
                    }
                    if let Some(id) = self.lookup(piece) {
                        tokens.push(id);
                        fallback = false;
                    }
                },
                None => {},
            }
            if fallback {
                let mut k: usize = 0;
                while k < chunk.len()
                    invariant
                        k <= chunk@.len(),
                        tokens@ == before + fallback_ids(chunk@).take(k as int),
                    decreases chunk@.len() - k,
                {
                    tokens.push(chunk[k] as usize + 3);
                    assert(fallback_ids(chunk@).take(k + 1) =~= fallback_ids(chunk@).take(k as int).push(
                        (chunk@[k as int] + 3) as usize,
                    ));
                    k += 1;
                }
                assert(fallback_ids(chunk@).take(k as int) =~= fallback_ids(chunk@));
            }
            assert(tokens@ == before + ids);
            assert(tokens@ + chunk_tokens_from(self.keys(), b, j as int) =~= before + chunk_tokens_from(
                self.keys(),
                b,
                i as int,
            ));
            i = j;
        }
        assert(tokens@ + Seq::<usize>::empty() =~= tokens@);
    }

    /// Merges best pairs of tokens until no pair is an entry.
    fn merge_pairs(&self, tokens: &mut Vec<usize>)
        requires
            old(tokens)@.len() >= 2 ==> all_below(old(tokens)@, self.keys().len() as int),
        ensures
            final(tokens)@ == merge_all(
                token_pieces(self.keys(), old(tokens)@),
                found_fn(self.keys(), true),
                self.score_bits(),
                None,
                NEG_INFINITY_BITS,
            ).map_values(|p: SpecPiece| p.0 as usize),
    {
        proof {
            use_type_invariant(self);
        }
        let ghost lk = found_fn(self.keys(), true);
        let ghost sc = self.score_bits();
        let ghost target = merge_all(token_pieces(self.keys(), tokens@), lk, sc, None, NEG_INFINITY_BITS).map_values(
            |p: SpecPiece| p.0 as usize,
        );
        loop
            invariant
                lk == found_fn(self.keys(), true),
                sc == self.score_bits(),
                sc.len() == self.keys().len(),
                tokens@.len() >= 2 ==> all_below(tokens@, self.keys().len() as int),
                merge_all(token_pieces(self.keys(), tokens@), lk, sc, None, NEG_INFINITY_BITS).map_values(
                    |p: SpecPiece| p.0 as usize,
                ) == target,
            ensures
                tokens@ == target,
            decreases tokens@.len(),
        {
            proof {
                use_type_invariant(self);
            }
            let ghost v = token_pieces(self.keys(), tokens@);
            let mut best_score: u32 = NEG_INFINITY_BITS;
            let mut best_id: usize = 0;
            let mut best_idx: Option<usize> = None;
            let n = tokens.len();
            let mut i: usize = 0;
            while i + 1 < n
                invariant
                    lk == found_fn(self.keys(), true),
                    sc == self.score_bits(),
                    sc.len() == self.keys().len(),
                    n == tokens@.len(),
                    v == token_pieces(self.keys(), tokens@),
                    n >= 2 ==> all_below(tokens@, self.keys().len() as int),
                    i + 1 <= n || i == 0,
                    best_pair(v, lk, sc, None, NEG_INFINITY_BITS) == scan_pairs(
                        v,
                        lk,
                        sc,
                        None,
                        i as int,
                        best_score,
                        best_so_far(best_idx, best_id),
                    ),
                    best_idx matches Some(k) ==> {
                        &&& k + 1 < n
                        &&& lk(v[k as int].1 + v[k + 1].1) == Some(best_id as int)
                        &&& (best_id as int) < sc.len()
                    },
                decreases n - i,
            {
                proof {
                    use_type_invariant(self);
                }
                let a = tokens[i];
                let c = tokens[i + 1];
                let left = self.vocab[a].as_str().as_bytes();
                let right = self.vocab[c].as_str().as_bytes();
                assert(v[i as int].1 == left@ && v[i + 1].1 == right@);
                let candidate = join_bytes(left, right);
                if let Some(id) = self.lookup_bytes(candidate.as_slice()) {
                    let score = self.vocab_scores[id];
                    if f32_gt(score, best_score) {
                        best_score = score;
                        best_id = id;
                        best_idx = Some(i);
                    }
                }
                i += 1;
            }
            proof {
                lemma_scan_pairs(v, lk, sc, None, 0, NEG_INFINITY_BITS, None);
            }
            match best_idx {
                None => {
                    assert(merge_all(v, lk, sc, None, NEG_INFINITY_BITS) == v);
                    assert(v.map_values(|p: SpecPiece| p.0 as usize) =~= tokens@);
                    break;
                },
                Some(k) => {
                    let ghost joined = v[k as int].1 + v[k + 1].1;
                    proof {
                        lemma_last_index_below(self.keys(), joined, self.keys().len() as int);
                    }
                    tokens.set(k, best_id);
                    tokens.remove(k + 1);
                    assert(token_pieces(self.keys(), tokens@) =~= merge_at(v, k as int, best_id as int));
                },
            }
        }
    }

    /// Encodes `text`: BOS (id 1) if asked for, the single-space entry
    /// unless the text is empty, each character chunk as its entry or byte
    /// by byte (`byte + 3`), best pairs merged, then EOS (id 2) if asked
    /// for. A missing single-space entry, or a token to merge that is not
    /// an entry, is an error.
    pub fn encode(&self, text: &str, bos: bool, eos: bool) -> (r: std::io::Result<Vec<usize>>)
        ensures
            match spec_encode(self.keys(), self.score_bits(), encode_utf8(text@), bos, eos) {
                Ok(ids) => r matches Ok(v) && v@ == ids,
                Err(_) => r is Err,
            },
    {
        proof {
            use_type_invariant(self);
        }
        let mut tokens: Vec<usize> = Vec::new();
        if bos {
            tokens.push(1);
        }
        let ghost head = tokens@;
        if !text.is_empty() {
            proof {
                reveal_strlit(" ");
                let sp = seq![' '];
                assert(" "@ =~= sp);
                assert(sp.drop_first() =~= Seq::<char>::empty());
                assert(32u32 & 0x7F == 32) by (bit_vector);
                assert(encode_scalar(32) =~= seq![32u8]);
                assert(encode_utf8(sp) == encode_scalar(sp[0] as u32) + encode_utf8(sp.drop_first()));
                assert(encode_utf8(" "@) =~= seq![32u8]);
            }
            let dummy_prefix = match self.lookup(" ") {
                Some(d) => d,
                None => return Err(invalid_data(String::from_str("missing dummy prefix token"))),
            };
            tokens.push(dummy_prefix);
            assert(tokens@ =~= head + seq![dummy_prefix]);
        }
        proof {
            if text@.len() > 0 {
                assert(encode_utf8(text@).len() > 0);
            } else {
                assert(encode_utf8(text@) =~= Seq::<u8>::empty());
            }
        }
        let ghost prefix = tokens@;
        self.push_chunks(text.as_bytes(), &mut tokens);
        proof {
            if text@.len() == 0 {
                assert(chunk_tokens_from(self.keys(), encode_utf8(text@), 0) =~= Seq::<usize>::empty());
                assert(tokens@ =~= head);
            } else {
                let id = lookup(self.keys(), seq![32u8]).unwrap();
                assert(prefix =~= head + seq![id as usize]);
            }
        }
        assert(start_tokens(self.keys(), encode_utf8(text@), bos) == Ok::<Seq<usize>, EncodeFault>(tokens@));
        if tokens.len() >= 2 {
            let mut k: usize = 0;
            while k < tokens.len()
                invariant
                    k <= tokens@.len(),
                    tokens@.len() >= 2,
                    start_tokens(self.keys(), encode_utf8(text@), bos) == Ok::<Seq<usize>, EncodeFault>(tokens@),
                    forall|i: int| 0 <= i < k ==> (#[trigger] tokens@[i] as int) < self.keys().len(),
                    self.keys().len() == self.pieces().len(),
                decreases tokens@.len() - k,
            {
                if tokens[k] >= self.vocab.len() {
                    return Err(invalid_data(token_out_of_range_message(tokens[k])));
                }
                k += 1;
            }
        }
        self.merge_pairs(&mut tokens);
        if eos {
            tokens.push(2);
        }
        Ok(tokens)
    }

    /// The text of `token` after `prev_token`: its entry, without a
    /// leading space right after BOS; an entry `<0xHH>` is that byte as
    /// text (ill-formed UTF-8 replaced). A token outside the vocabulary is
    /// an error.
    pub fn decode(&self, prev_token: usize, token: usize) -> (r: std::io::Result<String>)
        ensures
            (token as int) < self.pieces().len() ==> (r matches Ok(s) && s@ == decoded(
                self.pieces()[token as int]@,
                prev_token,
            )),
            (token as int) >= self.pieces().len() ==> r is Err,
    {
        let entry = match self.piece(token) {
            Ok(p) => p,
            Err(e) => return Err(e),
        };
        let n = entry.unicode_len();
        let piece: &str = if prev_token == 1 && n > 0 && entry.get_char(0) == ' ' {
            entry.substring_char(1, n)
        } else {
            entry
        };
        assert(n > 0 ==> entry@.drop_first() =~= entry@.subrange(1, n as int));
        match parse_raw_byte_piece(piece) {
            Some(byte) => {
                let one = vec![byte];
                assert(one@ =~= seq![byte]);
                Ok(utf8_lossy(one.as_slice()))
            },
            None => Ok(String::from_str(piece)),
        }
    }

    /// The decoded piece when it is worth showing: not empty, and not a
    /// single byte that does not print.
    pub fn safe_decode(&self, prev_token: usize, token: usize) -> (r: std::io::Result<Option<String>>)
        ensures
            (token as int) < self.pieces().len() ==> match safe_piece(
                decoded(self.pieces()[token as int]@, prev_token),
            ) {
                Some(p) => r matches Ok(Some(s)) && s@ == p,
                None => r matches Ok(None),
            },
            (token as int) >= self.pieces().len() ==> r is Err,
    {
        let piece = match self.decode(prev_token, token) {
            Ok(p) => p,
            Err(e) => return Err(e),
        };
        let bytes = piece.as_str().as_bytes();
        if bytes.len() == 0 {
            return Ok(None);
        }
        if bytes.len() == 1 {
            let byte = bytes[0];
            let printable = (0x21 <= byte && byte <= 0x7e) || byte == 0x20 || byte == 0x09 || byte == 0x0a
                || byte == 0x0c || byte == 0x0d;
            if !printable {
                return Ok(None);
            }
        }
        Ok(Some(piece))
    }
}

/// Merging never changes the text that the tokens spell, and leaves only
/// tokens of the vocabulary.
pub proof fn merge_keeps_text(keys: Seq<Seq<u8>>, scores: Seq<u32>, ids: Seq<usize>)
    requires
        all_below(ids, keys.len() as int),
        keys.len() <= usize::MAX,
    ensures
        ({
            let out = merge_all(token_pieces(keys, ids), found_fn(keys, true), scores, None, NEG_INFINITY_BITS).map_values(
                |p: SpecPiece| p.0 as usize,
            );
            &&& all_below(out, keys.len() as int)
            &&& spelled(token_pieces(keys, out)) == spelled(token_pieces(keys, ids))
        }),
{
    let ps = token_pieces(keys, ids);
    let lk = found_fn(keys, true);
    assert(faithful(keys, ps));
    lemma_found_sound(keys, true);
    lemma_merge_all_faithful(ps, lk, scores, None, NEG_INFINITY_BITS, keys);
    lemma_merge_all(ps, lk, scores, None, NEG_INFINITY_BITS);
    let m = merge_all(ps, lk, scores, None, NEG_INFINITY_BITS);
    let out = m.map_values(|p: SpecPiece| p.0 as usize);
    assert forall|i: int| 0 <= i < out.len() implies (#[trigger] out[i] as int) < keys.len() by {
        assert(out[i] == m[i].0 as usize);
    }
    assert(token_pieces(keys, out) =~= m) by {
        assert forall|i: int| 0 <= i < m.len() implies token_pieces(keys, out)[i] == m[i] by {
            assert(out[i] == m[i].0 as usize);
            assert(0 <= m[i].0 < keys.len());
        }
    }
}

/// The chunk tokens of known chunks spell the bytes they came from.
proof fn lemma_chunk_tokens_spell(keys: Seq<Seq<u8>>, b: Seq<u8>, i: int)
    requires
        0 <= i <= b.len(),
        keys.len() <= usize::MAX,
        chunks_known(keys, b, i),
    ensures
        all_below(chunk_tokens_from(keys, b, i), keys.len() as int),
        spelled(token_pieces(keys, chunk_tokens_from(keys, b, i))) == b.subrange(i, b.len() as int),
    decreases b.len() - i,
{
    if i < b.len() {
        let e = chunk_end(b, i, i + 1);
        lemma_chunk_end(b, i, i + 1);
        let c = b.subrange(i, e);
        lemma_last_index_below(keys, c, keys.len() as int);
        lemma_chunk_tokens_spell(keys, b, e);
        let id = lookup(keys, c).unwrap();
        let head: Seq<usize> = seq![id as usize];
        let rest = chunk_tokens_from(keys, b, e);
        assert(chunk_tokens_from(keys, b, i) == head + rest);
        assert(token_pieces(keys, head + rest) =~= token_pieces(keys, head) + token_pieces(keys, rest));
        assert(token_pieces(keys, head) =~= seq![(id, keys[id])]);
        lemma_spelled_concat(token_pieces(keys, head), token_pieces(keys, rest));
        lemma_spelled_one((id, keys[id]));
        assert(b.subrange(i, b.len() as int) =~= c + b.subrange(e, b.len() as int));
        assert forall|k: int| 0 <= k < (head + rest).len() implies (#[trigger] (head + rest)[k] as int)
            < keys.len() by {
            if k >= 1 {
                assert((head + rest)[k] == rest[k - 1]);
            }
        }
    } else {
        assert(token_pieces(keys, Seq::<usize>::empty()) =~= Seq::<SpecPiece>::empty());
        assert(piece_bytes(Seq::<SpecPiece>::empty()) =~= Seq::<Seq<u8>>::empty());
        assert(b.subrange(i, b.len() as int) =~= Seq::<u8>::empty());
    }
}

/// Encoding loses no text: when every character of a text has an entry
/// (and a non-empty text has the single-space entry to start with),
/// encoding succeeds and the entries of its tokens (without BOS or EOS)
/// spell a space, then the text.
pub proof fn encoding_spells_the_text(keys: Seq<Seq<u8>>, scores: Seq<u32>, text: Seq<u8>)
    requires
        keys.len() <= usize::MAX,
        chunks_known(keys, text, 0),
        text.len() > 0 ==> lookup(keys, seq![32u8]) is Some,
    ensures
        spec_encode(keys, scores, text, false, false) matches Ok(ids) && {
            &&& all_below(ids, keys.len() as int)
            &&& spelled(token_pieces(keys, ids)) == (if text.len() > 0 {
                seq![32u8]
            } else {
                Seq::<u8>::empty()
            }) + text
        },
{
    let start: Seq<usize> = if text.len() == 0 {
        Seq::empty()
    } else {
        let id = lookup(keys, seq![32u8]).unwrap();
        lemma_last_index_below(keys, seq![32u8], keys.len() as int);
        lemma_chunk_tokens_spell(keys, text, 0);
        assert(text.subrange(0, text.len() as int) =~= text);
        let space: Seq<usize> = seq![id as usize];
        let chunks = chunk_tokens_from(keys, text, 0);
        assert(Seq::<usize>::empty() + space + chunks =~= space + chunks);
        assert(token_pieces(keys, space + chunks) =~= token_pieces(keys, space) + token_pieces(keys, chunks));
        lemma_spelled_concat(token_pieces(keys, space), token_pieces(keys, chunks));
        assert(token_pieces(keys, space) =~= seq![(id, keys[id])]);
        lemma_spelled_one((id, keys[id]));
        assert forall|k: int| 0 <= k < (space + chunks).len() implies (#[trigger] (space + chunks)[k] as int)
            < keys.len() by {
            if k >= 1 {
                assert((space + chunks)[k] == chunks[k - 1]);
            }
        }
        space + chunks
    };
    assert(start_tokens(keys, text, false) == Ok::<Seq<usize>, EncodeFault>(start));
    if text.len() == 0 {
        assert(token_pieces(keys, start) =~= Seq::<SpecPiece>::empty());
        assert(piece_bytes(Seq::<SpecPiece>::empty()) =~= Seq::<Seq<u8>>::empty());
        assert(Seq::<u8>::empty() + text =~= text);
    }
    merge_keeps_text(keys, scores, start);
}

} // verus!
