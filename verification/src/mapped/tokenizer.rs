//! The mapped tokenizer: a vocabulary of strings with scores, looked up by
//! binary search over a lazily built sorted index, byte-pair merging
//! without a length limit, and byte fallback to ids `byte + 3`.
//!
//! File format: `max_token_length: u32`, then per entry `score: f32`,
//! `length: u32`, `length` bytes of UTF-8. Scores are kept as their bits.

use vstd::prelude::*;
use vstd::utf8::{encode_scalar, encode_utf8, valid_utf8, decode_utf8, decode_utf8_encode_utf8};
use crate::lexicon::{key_bytes, is_key_order, ids_in_range, sort_ids_by_key, find_last, last_id, last_index, lemma_last_index_below};
use crate::bpe::{SpecPiece, scan_pairs, best_pair, merge_at, merge_all, lemma_scan_pairs, lemma_merge_all, lemma_merge_all_faithful, lemma_merge_all_nonempty, faithful, sound_lookup, spelled,
    lemma_spelled_concat, lemma_spelled_one};
use crate::score::{f32_gt, MINUS_1E10_BITS};
use crate::text::{join_bytes, str_from_utf8, string_from_utf8, utf8_lossy};
use crate::eager::tokenizer::{decoded, safe_piece, parse_raw_byte_piece};
use vstd::string::{StringExecFns, StrSliceExecFns};
use crate::le_bytes::{u32_at, spec_u32_at};
use crate::io_error::{unexpected_eof, invalid_input};

verus! {

/// The vocabulary in byte order, for binary search.
#[derive(Debug)]
pub struct SortedVocab {
    keys: Vec<Vec<u8>>,
    order: Vec<usize>,
}

/// The UTF-8 bytes of every vocabulary entry.
pub open spec fn vocab_keys(vocab: Seq<String>) -> Seq<Seq<u8>> {
    vocab.map_values(|s: String| encode_utf8(s@))
}

impl SortedVocab {
    #[verifier::type_invariant]
    spec fn inv(&self) -> bool {
        &&& is_key_order(key_bytes(self.keys@), self.order@)
        &&& ids_in_range(self.order@, self.keys@.len() as int)
    }

    /// The bytes of each entry, by id.
    pub closed spec fn keys(&self) -> Seq<Seq<u8>> {
        key_bytes(self.keys@)
    }

    /// Indexes a vocabulary.
    pub fn build(vocab: &Vec<String>) -> (r: SortedVocab)
        ensures
            r.keys() == vocab_keys(vocab@),
    {
        let mut keys: Vec<Vec<u8>> = Vec::new();
        let mut i: usize = 0;
        while i < vocab.len()
            invariant
                i <= vocab@.len(),
                key_bytes(keys@) == vocab_keys(vocab@).take(i as int),
            decreases vocab@.len() - i,
        {
            let s = vocab[i].as_str();
            let bs = s.as_bytes();
            assert(bs@ == encode_utf8(vocab@[i as int]@));
            let k = vstd::slice::slice_to_vec(bs);
            let ghost before = key_bytes(keys@);
            keys.push(k);
            assert(key_bytes(keys@) =~= before.push(k@));
            assert(key_bytes(keys@) =~= vocab_keys(vocab@).take(i + 1));
            i += 1;
        }
        assert(vocab_keys(vocab@).take(i as int) =~= vocab_keys(vocab@));
        let order = sort_ids_by_key(&keys);
        SortedVocab { keys, order }
    }

    /// The last entry spelling `key`, by binary search.
    pub fn find(&self, key: &[u8]) -> (r: Option<usize>)
        ensures
            r == last_id(self.keys(), key@),
            r matches Some(i) ==> i < self.keys().len() && self.keys()[i as int] == key@,
    {
        proof {
            use_type_invariant(self);
            lemma_last_index_below(self.keys(), key@, self.keys().len() as int);
        }
        let _count = self.keys.len();
        let r = find_last(&self.keys, &self.order, key);
        proof {
            if let Some(i) = last_index(self.keys(), key@) {
                assert(i as usize as int == i);
            }
        }
        r
    }
}

/// A vocabulary with its scores.
#[derive(Debug)]
pub struct Tokenizer {
    pub vocab: Vec<String>,
    pub vocab_scores: Vec<u32>,
    pub sorted_vocab: Option<SortedVocab>,
    pub max_token_length: usize,
    pub vocab_size: usize,
}

/// Whether a byte continues a UTF-8 sequence (`10xxxxxx`).
pub open spec fn is_continuation(b: u8) -> bool {
    b & 0xC0 == 0x80
}

/// The end of the character chunk that starts at `i`: the following
/// continuation bytes are taken while the chunk is shorter than four.
pub open spec fn chunk_end(b: Seq<u8>, i: int, j: int) -> int
    decreases b.len() - j,
{
    if 0 <= j < b.len() && is_continuation(b[j]) && j - i < 4 {
        chunk_end(b, i, j + 1)
    } else {
        j
    }
}

/// Byte fallback: each byte `x` becomes token `x + 3`.
pub open spec fn byte_ids(c: Seq<u8>) -> Seq<u32> {
    c.map_values(|x: u8| (x + 3) as u32)
}

impl Tokenizer {
    /// The UTF-8 bytes of every entry.
    pub open spec fn keys(&self) -> Seq<Seq<u8>> {
        vocab_keys(self.vocab@)
    }

    /// Scores and entries agree, ids fit in `u32`, and the sorted index
    /// (once built) is of this vocabulary.
    pub open spec fn wf(&self) -> bool {
        &&& self.vocab@.len() == self.vocab_scores@.len()
        &&& self.vocab@.len() <= u32::MAX
        &&& self.sorted_vocab matches Some(sv) ==> sv.keys() == self.keys()
    }

}

/// The entry spelling `b`, as the sorted index finds it: the last one.
pub open spec fn lookup(keys: Seq<Seq<u8>>, b: Seq<u8>) -> Option<int> {
    last_index(keys, b)
}

/// The entry spelling `b` when the index is built; none without it.
pub open spec fn found(keys: Seq<Seq<u8>>, b: Seq<u8>, indexed: bool) -> Option<int> {
    if indexed {
        lookup(keys, b)
    } else {
        None
    }
}

pub open spec fn found_fn(keys: Seq<Seq<u8>>, indexed: bool) -> spec_fn(Seq<u8>) -> Option<int> {
    |b: Seq<u8>| found(keys, b, indexed)
}

/// The tokens of one chunk: its entry when it is valid UTF-8 and has one,
/// else one fallback token per byte.
pub open spec fn chunk_ids(keys: Seq<Seq<u8>>, c: Seq<u8>, indexed: bool) -> Seq<u32> {
    if valid_utf8(c) && found(keys, c, indexed) is Some {
        seq![found(keys, c, indexed).unwrap() as u32]
    } else {
        byte_ids(c)
    }
}

/// The tokens of the bytes from `i` on, chunk by chunk.
pub open spec fn chunks_from(keys: Seq<Seq<u8>>, b: Seq<u8>, i: int, indexed: bool) -> Seq<u32>
    decreases b.len() - i,
{
    if i < 0 || i >= b.len() {
        Seq::empty()
    } else {
        let e = chunk_end(b, i, i + 1);
        if e <= i || e > b.len() {
            Seq::empty()
        } else {
            chunk_ids(keys, b.subrange(i, e), indexed) + chunks_from(keys, b, e, indexed)
        }
    }
}

/// The pieces that token ids stand for.
pub open spec fn pieces_of(keys: Seq<Seq<u8>>, ids: Seq<u32>) -> Seq<SpecPiece> {
    ids.map_values(|t: u32| (t as int, keys[t as int]))
}

/// Token ids after merging best pairs, with no length limit.
pub open spec fn merged_ids(keys: Seq<Seq<u8>>, scores: Seq<u32>, ids: Seq<u32>, indexed: bool) -> Seq<u32> {
    merge_all(pieces_of(keys, ids), found_fn(keys, indexed), scores, None, MINUS_1E10_BITS).map_values(
        |p: SpecPiece| p.0 as u32,
    )
}

/// The tokens before merging: BOS (id 1) if asked for, the entry for a
/// single space if there is one, then the chunks of the prompt.
pub open spec fn start_ids(keys: Seq<Seq<u8>>, prompt: Seq<u8>, bos: bool) -> Seq<u32> {
    let head: Seq<u32> = if bos {
        seq![1u32]
    } else {
        Seq::empty()
    };
    let space: Seq<u32> = match lookup(keys, seq![32u8]) {
        Some(id) => seq![id as u32],
        None => Seq::empty(),
    };
    head + space + chunks_from(keys, prompt, 0, true)
}

/// The tokens of a prompt: the start tokens merged, then EOS (id 2) if
/// asked for.
pub open spec fn spec_encode(keys: Seq<Seq<u8>>, scores: Seq<u32>, prompt: Seq<u8>, bos: bool, eos: bool) -> Seq<u32> {
    let merged = merged_ids(keys, scores, start_ids(keys, prompt, bos), true);
    if eos {
        merged.push(2u32)
    } else {
        merged
    }
}

/// Every id names an entry.
pub open spec fn ids_below(ids: Seq<u32>, n: int) -> bool {
    forall|i: int| 0 <= i < ids.len() ==> (#[trigger] ids[i] as int) < n
}

/// The end of a chunk lies past its start and inside the bytes.
pub proof fn lemma_chunk_end(b: Seq<u8>, i: int, j: int)
    requires
        0 <= j <= b.len(),
    ensures
        j <= chunk_end(b, i, j) <= b.len(),
    decreases b.len() - j,
{
    if 0 <= j < b.len() && is_continuation(b[j]) && j - i < 4 {
        lemma_chunk_end(b, i, j + 1);
    }
}

/// The position and token of the best candidate so far.
spec fn best_so_far(best_idx: Option<usize>, best_id: u32) -> Option<(int, int)> {
    match best_idx {
        Some(i) => Some((i as int, best_id as int)),
        None => None,
    }
}

impl Tokenizer {
    /// The last entry spelling `b`, once the index is built.
    fn lookup_bytes(&self, b: &[u8]) -> (r: Option<u32>)
        requires
            self.wf(),
        ensures
            r matches Some(t) ==> found(self.keys(), b@, self.sorted_vocab is Some) == Some(t as int) && (t as int)
                < self.keys().len(),
            r is None <==> found(self.keys(), b@, self.sorted_vocab is Some) is None,
    {
        match &self.sorted_vocab {
            None => None,
            Some(sv) => {
                proof {
                    lemma_last_index_below(self.keys(), b@, self.keys().len() as int);
                }
                match sv.find(b) {
                    Some(i) => Some(i as u32),
                    None => None,
                }
            },
        }
    }

    /// The entry spelling `s`: found by binary search once the index is
    /// built, never before.
    pub fn str_lookup(&self, s: &str) -> (r: Option<u32>)
        requires
            self.wf(),
        ensures
            r matches Some(t) ==> found(self.keys(), encode_utf8(s@), self.sorted_vocab is Some) == Some(t as int)
                && (t as int) < self.keys().len(),
            r is None <==> found(self.keys(), encode_utf8(s@), self.sorted_vocab is Some) is None,
    {
        self.lookup_bytes(s.as_bytes())
    }

    /// Builds the sorted index of the vocabulary.
    pub fn initialize_sort_vocab(&mut self)
        ensures
            final(self).vocab@ == old(self).vocab@,
            final(self).vocab_scores@ == old(self).vocab_scores@,
            final(self).max_token_length == old(self).max_token_length,
            final(self).vocab_size == old(self).vocab_size,
            final(self).sorted_vocab matches Some(sv) && sv.keys() == final(self).keys(),
    {
        let sorted = SortedVocab::build(&self.vocab);
        self.sorted_vocab = Some(sorted);
    }

    /// Appends the tokens of `prompt`, one character chunk at a time: a
    /// lead byte with up to three continuation bytes. A chunk that is
    /// valid UTF-8 and an entry becomes that entry; any other chunk falls
    /// back to one token per byte, `byte + 3`.
    pub fn tokenize_per_char(&self, prompt: &str, tokens: &mut Vec<u32>)
        requires
            self.wf(),
        ensures
            final(tokens)@ == old(tokens)@ + chunks_from(self.keys(), encode_utf8(prompt@), 0, self.sorted_vocab is Some),
    {
        let bytes = prompt.as_bytes();
        let ghost b = bytes@;
        let ghost ix = self.sorted_vocab is Some;
        let n = bytes.len();
        let mut i: usize = 0;
        assert(old(tokens)@ + Seq::<u32>::empty() =~= old(tokens)@);
        while i < n
            invariant
                self.wf(),
                ix == (self.sorted_vocab is Some),
                b == bytes@,
                n == b.len(),
                i <= n,
                tokens@ + chunks_from(self.keys(), b, i as int, ix) == old(tokens)@ + chunks_from(self.keys(), b, 0, ix),
            decreases n - i,
        {
            let mut j: usize = i + 1;
            while j < n && (bytes[j] & 0xC0) == 0x80 && j - i < 4
                invariant
                    b == bytes@,
                    n == b.len(),
                    i < j <= n,
                    chunk_end(b, i as int, i + 1) == chunk_end(b, i as int, j as int),
                decreases n - j,
            {
                j += 1;
            }
            proof {
                lemma_chunk_end(b, i as int, i + 1);
            }
            let chunk = &bytes[i..j];
            assert(chunk@ == b.subrange(i as int, j as int));
            let ghost before = tokens@;
            let ghost piece_ids = chunk_ids(self.keys(), chunk@, ix);
            let mut fallback = true;
            match str_from_utf8(chunk) {
                Some(piece) => {
                    proof {
                        decode_utf8_encode_utf8(chunk@);
                    }
                    if let Some(id) = self.str_lookup(piece) {
                        tokens.push(id);
                        fallback = false;
                    }
                },
                None => {},
            }
            if fallback {
                let mut k: usize = 0;
                while k < chunk.len()
                    invariant
                        k <= chunk@.len(),
                        tokens@ == before + byte_ids(chunk@).take(k as int),
                    decreases chunk@.len() - k,
                {
                    tokens.push(chunk[k] as u32 + 3);
                    assert(byte_ids(chunk@).take(k + 1) =~= byte_ids(chunk@).take(k as int).push(
                        (chunk@[k as int] + 3) as u32,
                    ));
                    k += 1;
                }
                assert(byte_ids(chunk@).take(k as int) =~= byte_ids(chunk@));
            }
            assert(tokens@ == before + piece_ids);
            assert(tokens@ + chunks_from(self.keys(), b, j as int, ix) =~= before + chunks_from(self.keys(), b, i as int, ix));
            i = j;
        }
        assert(tokens@ + Seq::<u32>::empty() =~= tokens@);
    }

    /// Replaces best pairs of tokens by the entry they spell together (the
    /// highest score wins, the first pair on ties) until no pair is an
    /// entry. Without the index no pair is found.
    pub fn merge_tokens(&self, tokens: &mut Vec<u32>)
        requires
            self.wf(),
            old(tokens)@.len() >= 2 ==> ids_below(old(tokens)@, self.vocab@.len() as int),
        ensures
            final(tokens)@ == merged_ids(self.keys(), self.vocab_scores@, old(tokens)@, self.sorted_vocab is Some),
    {
        let ghost ix = self.sorted_vocab is Some;
        let ghost lk = found_fn(self.keys(), ix);
        let ghost sc = self.vocab_scores@;
        let ghost target = merged_ids(self.keys(), self.vocab_scores@, tokens@, ix);
        loop
            invariant
                self.wf(),
                ix == (self.sorted_vocab is Some),
                lk == found_fn(self.keys(), ix),
                sc == self.vocab_scores@,
                tokens@.len() >= 2 ==> ids_below(tokens@, self.vocab@.len() as int),
                merged_ids(self.keys(), self.vocab_scores@, tokens@, ix) == target,
                target == merged_ids(self.keys(), self.vocab_scores@, old(tokens)@, ix),
            ensures
                tokens@ == target,
            decreases tokens@.len(),
        {
            let ghost v = pieces_of(self.keys(), tokens@);
            let mut best_score: u32 = MINUS_1E10_BITS;
            let mut best_id: u32 = 0;
            let mut best_idx: Option<usize> = None;
            let n = tokens.len();
            let mut i: usize = 0;
            while i + 1 < n
                invariant
                    self.wf(),
                    ix == (self.sorted_vocab is Some),
                    lk == found_fn(self.keys(), ix),
                    sc == self.vocab_scores@,
                    n == tokens@.len(),
                    v == pieces_of(self.keys(), tokens@),
                    n >= 2 ==> ids_below(tokens@, self.vocab@.len() as int),
                    i + 1 <= n || i == 0,
                    best_pair(v, lk, sc, None, MINUS_1E10_BITS) == scan_pairs(
                        v,
                        lk,
                        sc,
                        None,
                        i as int,
                        best_score,
                        best_so_far(best_idx, best_id),
                    ),
                    best_idx matches Some(k) ==> {
                        &&& k + 1 < n
                        &&& lk(v[k as int].1 + v[k + 1].1) == Some(best_id as int)
                        &&& (best_id as int) < sc.len()
                    },
                decreases n - i,
            {
                let a = tokens[i];
                let b = tokens[i + 1];
                assert((a as int) < self.vocab@.len() && (b as int) < self.vocab@.len());
                let left = self.vocab[a as usize].as_str().as_bytes();
                let right = self.vocab[b as usize].as_str().as_bytes();
                assert(v[i as int].1 == left@ && v[i + 1].1 == right@);
                let candidate = join_bytes(left, right);
                if let Some(id) = self.lookup_bytes(candidate.as_slice()) {
                    let score = self.vocab_scores[id as usize];
                    if f32_gt(score, best_score) {
                        best_score = score;
                        best_id = id;
                        best_idx = Some(i);
                    }
                }
                i += 1;
            }
            proof {
                lemma_scan_pairs(v, lk, sc, None, 0, MINUS_1E10_BITS, None);
            }
            match best_idx {
                None => {
                    assert(merge_all(v, lk, sc, None, MINUS_1E10_BITS) == v);
                    assert(v.map_values(|p: SpecPiece| p.0 as u32) =~= tokens@);
                    break;
                },
                Some(k) => {
                    let ghost joined = v[k as int].1 + v[k + 1].1;
                    proof {
                        lemma_last_index_below(self.keys(), joined, self.keys().len() as int);
                    }
                    tokens.set(k, best_id);
                    tokens.remove(k + 1);
                    assert(pieces_of(self.keys(), tokens@) =~= merge_at(v, k as int, best_id as int));
                },
            }
        }
    }

    /// The tokens of a prompt before merging: builds the index if needed,
    /// then BOS (id 1) if asked for, the entry for a single space if there
    /// is one, and the chunks of the prompt.
    pub fn start_tokens(&mut self, prompt: &str, bos: bool) -> (r: Vec<u32>)
        requires
            old(self).wf(),
        ensures
            final(self).wf(),
            final(self).vocab@ == old(self).vocab@,
            final(self).vocab_scores@ == old(self).vocab_scores@,
            final(self).max_token_length == old(self).max_token_length,
            final(self).vocab_size == old(self).vocab_size,
            final(self).sorted_vocab is Some,
            r@ == start_ids(old(self).keys(), encode_utf8(prompt@), bos),
    {
        if self.sorted_vocab.is_none() {
            self.initialize_sort_vocab();
        }
        let mut tokens: Vec<u32> = Vec::new();
        if bos {
            tokens.push(1);
        }
        if let Some(dummy_prefix) = self.str_lookup(" ") {
            tokens.push(dummy_prefix);
        }
        proof {
            reveal_strlit(" ");
        }
        assert(encode_utf8(" "@) =~= seq![32u8]) by {
            assert(" "@ =~= seq![' ']);
            let sp = seq![' '];
            assert(sp.drop_first() =~= Seq::<char>::empty());
            assert(' ' as u32 == 32);
            assert(32u32 & 0x7F == 32) by (bit_vector);
            assert(encode_scalar(32) =~= seq![32u8]);
            assert(encode_utf8(sp) == encode_scalar(sp[0] as u32) + encode_utf8(sp.drop_first()));
        }
        self.tokenize_per_char(prompt, &mut tokens);
        assert(tokens@ =~= start_ids(self.keys(), encode_utf8(prompt@), bos));
        tokens
    }

    /// The text of `token` after `prev_token`: its entry, without a leading
    /// space right after BOS; an entry `<0xHH>` is that byte as text.
    pub fn decode(&self, prev_token: u32, token: u32) -> (s: String)
        requires
            (token as int) < self.vocab@.len(),
        ensures
            s@ == decoded(self.vocab@[token as int]@, prev_token as usize),
    {
        let entry = self.vocab[token as usize].as_str();
        let n = entry.unicode_len();
        let piece: &str = if prev_token == 1 && n > 0 && entry.get_char(0) == ' ' {
            entry.substring_char(1, n)
        } else {
            entry
        };
        assert(n > 0 ==> entry@.drop_first() =~= entry@.subrange(1, n as int));
        match parse_raw_byte_piece(piece) {
            Some(byte) => {
                let one = vec![byte];
                assert(one@ =~= seq![byte]);
                utf8_lossy(one.as_slice())
            },
            None => String::from_str(piece),
        }
    }

    /// The piece when it is worth showing: not empty, and not a single byte
    /// that does not print.
    pub fn safe_piece<'a>(&self, piece: &'a str) -> (r: Option<&'a str>)
        ensures
            r is Some <==> safe_piece(piece@) is Some,
            r matches Some(p) ==> p@ == piece@,
    {
        let bytes = piece.as_bytes();
        if bytes.len() == 0 {
            return None;
        }
        if bytes.len() == 1 {
            let byte = bytes[0];
            let printable = (0x21 <= byte && byte <= 0x7e) || byte == 0x20 || byte == 0x09 || byte == 0x0a
                || byte == 0x0c || byte == 0x0d;
            if !printable {
                return None;
            }
        }
        Some(piece)
    }

    /// Encodes a prompt: builds the index if needed, then BOS (id 1) if
    /// asked for, the entry for a single space if there is one, the chunks
    /// of the prompt, best pairs merged, and EOS (id 2) if asked for. No
    /// prompt is an `InvalidInput` error.
    pub fn encode(&mut self, prompt: Option<&str>, bos: bool, eos: bool) -> (r: std::io::Result<Vec<u32>>)
        requires
            old(self).wf(),
            prompt matches Some(p) ==> (start_ids(old(self).keys(), encode_utf8(p@), bos).len() >= 2
                ==> ids_below(start_ids(old(self).keys(), encode_utf8(p@), bos), old(self).vocab@.len() as int)),
        ensures
            final(self).wf(),
            final(self).vocab@ == old(self).vocab@,
            final(self).vocab_scores@ == old(self).vocab_scores@,
            final(self).max_token_length == old(self).max_token_length,
            final(self).vocab_size == old(self).vocab_size,
            prompt is None ==> r is Err,
            prompt matches Some(p) ==> (r matches Ok(v) && v@ == spec_encode(old(self).keys(), old(self).vocab_scores@, encode_utf8(p@), bos, eos)
                && final(self).sorted_vocab is Some),
    {
        let prompt = match prompt {
            Some(p) => p,
            None => return Err(invalid_input("prompt is None")),
        };
        let mut tokens = self.start_tokens(prompt, bos);
        self.merge_tokens(&mut tokens);
        if eos {
            tokens.push(2);
        }
        Ok(tokens)
    }
}

/// Why a tokenizer file was refused.
pub enum LoadFault {
    /// The bytes end early.
    Truncated,
    /// An entry is not valid UTF-8.
    InvalidUtf8,
}

/// Entries `index..n` read from position `pos`, as (score bits, bytes),
/// and the end position; or the first fault.
pub open spec fn parse_entries(b: Seq<u8>, pos: int, index: int, n: int) -> Result<
    (Seq<(u32, Seq<u8>)>, int),
    LoadFault,
>
    decreases n - index,
{
    if index >= n {
        Ok((Seq::empty(), pos))
    } else if pos + 8 > b.len() {
        Err(LoadFault::Truncated)
    } else {
        let len = spec_u32_at(b, pos + 4);
        if pos + 8 + len > b.len() {
            Err(LoadFault::Truncated)
        } else if !valid_utf8(b.subrange(pos + 8, pos + 8 + len)) {
            Err(LoadFault::InvalidUtf8)
        } else {
            let entry = (spec_u32_at(b, pos) as u32, b.subrange(pos + 8, pos + 8 + len));
            match parse_entries(b, pos + 8 + len, index + 1, n) {
                Ok((rest, end)) => Ok((seq![entry].add(rest), end)),
                Err(e) => Err(e),
            }
        }
    }
}

/// A tokenizer file of `n` entries: the maximum token length and the
/// entries, or the first fault.
pub open spec fn parse_file(b: Seq<u8>, n: int) -> Result<(int, Seq<(u32, Seq<u8>)>), LoadFault> {
    if b.len() < 4 {
        Err(LoadFault::Truncated)
    } else {
        match parse_entries(b, 4, 0, n) {
            Ok((entries, _end)) => Ok((spec_u32_at(b, 0), entries)),
            Err(e) => Err(e),
        }
    }
}

/// Entries as (score bits, bytes).
spec fn entries_of(v: Seq<String>, sc: Seq<u32>) -> Seq<(u32, Seq<u8>)> {
    Seq::new(v.len(), |i: int| (sc[i], encode_utf8(v[i]@)))
}

impl Tokenizer {
    /// Reads a tokenizer of `vocab_size` entries from the bytes of a
    /// tokenizer file. Bytes that end early, or an entry that is not valid
    /// UTF-8, give an error. The sorted index is not built yet.
    pub fn from_bytes(bytes: &[u8], vocab_size: usize) -> (r: std::io::Result<Tokenizer>)
        ensures
            r is Err <==> parse_file(bytes@, vocab_size as int) is Err,
            r matches Ok(t) ==> parse_file(bytes@, vocab_size as int) matches Ok((max, entries)) && {
                &&& t.max_token_length == max
                &&& t.keys() == entries.map_values(|e: (u32, Seq<u8>)| e.1)
                &&& t.vocab_scores@ == entries.map_values(|e: (u32, Seq<u8>)| e.0)
                &&& t.vocab_size == vocab_size
                &&& t.sorted_vocab is None
                &&& (vocab_size <= u32::MAX ==> t.wf())
            },
    {
        let ghost b = bytes@;
        if bytes.len() < 4 {
            return Err(unexpected_eof("failed to fill whole buffer"));
        }
        let max_token_length = u32_at(bytes, 0) as usize;
        let mut vocab: Vec<String> = Vec::new();
        let mut vocab_scores: Vec<u32> = Vec::new();
        let mut pos: usize = 4;
        let mut index: usize = 0;
        assert(entries_of(vocab@, vocab_scores@) =~= Seq::<(u32, Seq<u8>)>::empty());
        proof {
            if let Ok((all, end)) = parse_entries(b, 4, 0, vocab_size as int) {
                assert(Seq::<(u32, Seq<u8>)>::empty().add(all) =~= all);
            }
        }
        while index < vocab_size
            invariant
                b == bytes@,
                b.len() >= 4,
                4 <= pos <= b.len(),
                index <= vocab_size,
                vocab@.len() == index,
                vocab_scores@.len() == index,
                parse_entries(b, 4, 0, vocab_size as int) == match parse_entries(
                    b,
                    pos as int,
                    index as int,
                    vocab_size as int,
                ) {
                    Ok((rest, end)) => Ok((entries_of(vocab@, vocab_scores@).add(rest), end)),
                    Err(e) => Err(e),
                },
            decreases vocab_size - index,
        {
            if bytes.len() - pos < 8 {
                return Err(unexpected_eof("failed to fill whole buffer"));
            }
            let score = u32_at(bytes, pos);
            let length = u32_at(bytes, pos + 4) as usize;
            if length > bytes.len() - pos - 8 {
                return Err(unexpected_eof("failed to fill whole buffer"));
            }
            let raw = vstd::slice::slice_to_vec(&bytes[pos + 8..pos + 8 + length]);
            let ghost raw_bytes = raw@;
            assert(raw_bytes == b.subrange(pos + 8, pos + 8 + length));
            let piece = match string_from_utf8(raw, "invalid tokenizer entry") {
                Ok(s) => s,
                Err(e) => return Err(e),
            };
            proof {
                decode_utf8_encode_utf8(raw_bytes);
            }
            let ghost old_entries = entries_of(vocab@, vocab_scores@);
            vocab_scores.push(score);
            vocab.push(piece);
            let ghost entry = (score, raw_bytes);
            assert(entries_of(vocab@, vocab_scores@) =~= old_entries.push(entry));
            proof {
                if let Ok((rest, end)) = parse_entries(b, pos + 8 + length, index + 1, vocab_size as int) {
                    assert(old_entries.add(seq![entry].add(rest)) =~= old_entries.push(entry).add(rest));
                }
            }
            pos = pos + 8 + length;
            index += 1;
        }
        let ghost all = entries_of(vocab@, vocab_scores@);
        assert(all.add(Seq::<(u32, Seq<u8>)>::empty()) =~= all);
        assert(vocab_keys(vocab@) =~= all.map_values(|e: (u32, Seq<u8>)| e.1));
        assert(vocab_scores@ =~= all.map_values(|e: (u32, Seq<u8>)| e.0));
        Ok(Tokenizer { vocab, vocab_scores, sorted_vocab: None, max_token_length, vocab_size })
    }
}

/// The lookup of the sorted index only finds entries that spell what was
/// looked up.
pub proof fn lemma_found_sound(keys: Seq<Seq<u8>>, indexed: bool)
    ensures
        sound_lookup(keys, found_fn(keys, indexed)),
{
    assert forall|b: Seq<u8>| #[trigger] found_fn(keys, indexed)(b) is Some implies 0 <= found_fn(keys, indexed)(
        b,
    ).unwrap() < keys.len() && keys[found_fn(keys, indexed)(b).unwrap()] == b by {
        lemma_last_index_below(keys, b, keys.len() as int);
    }
}

/// Merging never changes the text that the tokens spell, and leaves only
/// tokens of the vocabulary.
pub proof fn merge_keeps_text(keys: Seq<Seq<u8>>, scores: Seq<u32>, ids: Seq<u32>, indexed: bool)
    requires
        ids_below(ids, keys.len() as int),
        keys.len() <= u32::MAX,
    ensures
        ids_below(merged_ids(keys, scores, ids, indexed), keys.len() as int),
        spelled(pieces_of(keys, merged_ids(keys, scores, ids, indexed))) == spelled(pieces_of(keys, ids)),
{
    let ps = pieces_of(keys, ids);
    let lk = found_fn(keys, indexed);
    assert(faithful(keys, ps));
    lemma_found_sound(keys, indexed);
    lemma_merge_all_faithful(ps, lk, scores, None, MINUS_1E10_BITS, keys);
    lemma_merge_all(ps, lk, scores, None, MINUS_1E10_BITS);
    let m = merge_all(ps, lk, scores, None, MINUS_1E10_BITS);
    let out = merged_ids(keys, scores, ids, indexed);
    assert(out =~= m.map_values(|p: SpecPiece| p.0 as u32));
    assert forall|i: int| 0 <= i < out.len() implies (#[trigger] out[i] as int) < keys.len() by {
        assert(out[i] == m[i].0 as u32);
    }
    assert(pieces_of(keys, out) =~= m) by {
        assert forall|i: int| 0 <= i < m.len() implies pieces_of(keys, out)[i] == m[i] by {
            assert(out[i] == m[i].0 as u32);
            assert(0 <= m[i].0 < keys.len());
        }
    }
}

/// Encoding with BOS never gives an empty token sequence.
pub proof fn lemma_encode_nonempty(keys: Seq<Seq<u8>>, scores: Seq<u32>, prompt: Seq<u8>)
    ensures
        spec_encode(keys, scores, prompt, true, false).len() > 0,
{
    let start = start_ids(keys, prompt, true);
    assert(start.len() > 0);
    lemma_merge_all_nonempty(pieces_of(keys, start), found_fn(keys, true), scores, None, MINUS_1E10_BITS);
}

/// Whether every chunk of `b` from `i` on is valid UTF-8 and has an entry,
/// so that no byte falls back.
pub open spec fn chunks_known(keys: Seq<Seq<u8>>, b: Seq<u8>, i: int) -> bool
    decreases b.len() - i,
{
    if i < 0 || i >= b.len() {
        true
    } else {
        let e = chunk_end(b, i, i + 1);
        if e <= i || e > b.len() {
            true
        } else {
            &&& valid_utf8(b.subrange(i, e))
            &&& lookup(keys, b.subrange(i, e)) is Some
            &&& chunks_known(keys, b, e)
        }
    }
}

/// The chunk tokens of known chunks spell the bytes they came from.
proof fn lemma_chunks_spell(keys: Seq<Seq<u8>>, b: Seq<u8>, i: int)
    requires
        0 <= i <= b.len(),
        keys.len() <= u32::MAX,
        chunks_known(keys, b, i),
    ensures
        ids_below(chunks_from(keys, b, i, true), keys.len() as int),
        spelled(pieces_of(keys, chunks_from(keys, b, i, true))) == b.subrange(i, b.len() as int),
    decreases b.len() - i,
{
    if i < b.len() {
        let e = chunk_end(b, i, i + 1);
        lemma_chunk_end(b, i, i + 1);
        let c = b.subrange(i, e);
        lemma_last_index_below(keys, c, keys.len() as int);
        lemma_chunks_spell(keys, b, e);
        let id = lookup(keys, c).unwrap();
        let head: Seq<u32> = seq![id as u32];
        let rest = chunks_from(keys, b, e, true);
        assert(chunks_from(keys, b, i, true) == head + rest);
        assert(pieces_of(keys, head + rest) =~= pieces_of(keys, head) + pieces_of(keys, rest));
        assert(pieces_of(keys, head) =~= seq![(id, keys[id])]);
        lemma_spelled_concat(pieces_of(keys, head), pieces_of(keys, rest));
        lemma_spelled_one((id, keys[id]));
        assert(b.subrange(i, b.len() as int) =~= c + b.subrange(e, b.len() as int));
        assert forall|k: int| 0 <= k < (head + rest).len() implies (#[trigger] (head + rest)[k] as int)
            < keys.len() by {
            if k >= 1 {
                assert((head + rest)[k] == rest[k - 1]);
            }
        }
    } else {
        assert(pieces_of(keys, Seq::<u32>::empty()) =~= Seq::<SpecPiece>::empty());
        assert(crate::bpe::piece_bytes(Seq::<SpecPiece>::empty()) =~= Seq::<Seq<u8>>::empty());
        assert(b.subrange(i, b.len() as int) =~= Seq::<u8>::empty());
    }
}

/// The bytes of the single-space entry when the vocabulary has one.
pub open spec fn space_prefix(keys: Seq<Seq<u8>>) -> Seq<u8> {
    if lookup(keys, seq![32u8]) is Some {
        seq![32u8]
    } else {
        Seq::empty()
    }
}

/// Encoding loses no text: when every character of the prompt has an
/// entry, the entries of its tokens (without BOS or EOS) spell the
/// single-space prefix, if the vocabulary has one, then the prompt.
pub proof fn encoding_spells_the_prompt(keys: Seq<Seq<u8>>, scores: Seq<u32>, prompt: Seq<u8>)
    requires
        keys.len() <= u32::MAX,
        chunks_known(keys, prompt, 0),
    ensures
        ids_below(spec_encode(keys, scores, prompt, false, false), keys.len() as int),
        spelled(pieces_of(keys, spec_encode(keys, scores, prompt, false, false))) == space_prefix(keys)
            + prompt,
{
    lemma_chunks_spell(keys, prompt, 0);
    assert(prompt.subrange(0, prompt.len() as int) =~= prompt);
    let space: Seq<u32> = match lookup(keys, seq![32u8]) {
        Some(id) => seq![id as u32],
        None => Seq::empty(),
    };
    let chunks = chunks_from(keys, prompt, 0, true);
    let start = start_ids(keys, prompt, false);
    assert(start =~= space + chunks);
    lemma_last_index_below(keys, seq![32u8], keys.len() as int);
    assert(pieces_of(keys, space + chunks) =~= pieces_of(keys, space) + pieces_of(keys, chunks));
    lemma_spelled_concat(pieces_of(keys, space), pieces_of(keys, chunks));
    match lookup(keys, seq![32u8]) {
        Some(id) => {
            assert(pieces_of(keys, space) =~= seq![(id, keys[id])]);
            lemma_spelled_one((id, keys[id]));
        },
        None => {
            assert(pieces_of(keys, space) =~= Seq::<SpecPiece>::empty());
            assert(crate::bpe::piece_bytes(Seq::<SpecPiece>::empty()) =~= Seq::<Seq<u8>>::empty());
        },
    }
    assert forall|k: int| 0 <= k < start.len() implies (#[trigger] start[k] as int) < keys.len() by {
        if k >= space.len() {
            assert(start[k] == chunks[k - space.len()]);
        }
    }
    merge_keeps_text(keys, scores, start, true);
}

} // verus!
