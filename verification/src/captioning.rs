//! The text side of image captioning: GPT-2's byte table, the guard against
//! repeating phrases, and turning generated token ids back into a sentence.
use vstd::prelude::*;
use std::collections::HashMap;
use vstd::utf8::{decode_utf8, valid_utf8};
use crate::batch::strings_view;
use crate::text::{chars_of, push_chars, trim_by, trim_whitespace, ws, string_from_chars};

verus! {

broadcast use vstd::std_specs::hash::group_hash_axioms;

/// `generation_config.json` gives this one id as the start, end and padding
/// token, so it both starts and ends the sentence.
pub const EOS_TOKEN_ID: i64 = 50256;

/// Captions are one short sentence; the reference implementation stops at 16.
pub const MAX_LENGTH: usize = 20;

/// Greedy decoding falls into loops ("a man riding a man riding a man").
/// Refusing any token that would repeat a three-token run is the guard the
/// reference implementation applies as `no_repeat_ngram_size`.
pub const NO_REPEAT_NGRAM: usize = 3;

/// Bytes GPT-2 keeps as themselves because they print.
pub open spec fn printable(b: int) -> bool {
    (0x21 <= b <= 0x7E) || (0xA1 <= b <= 0xAC) || (0xAE <= b <= 0xFF)
}

/// How many bytes below `b` do not print.
pub open spec fn spares_before(b: int) -> int
    decreases b,
{
    if b <= 0 {
        0
    } else {
        spares_before(b - 1) + if printable(b - 1) {
            0int
        } else {
            1int
        }
    }
}

/// The character (as a code point) GPT-2 writes for byte `b`: the byte itself
/// when it prints, otherwise the next unused symbol above 255, handed out in
/// ascending byte order.
pub open spec fn symbol_of(b: int) -> int {
    if printable(b) {
        b
    } else {
        256 + spares_before(b)
    }
}

proof fn lemma_spares_grow(a: int, b: int)
    requires
        0 <= a <= b,
    ensures
        spares_before(a) <= spares_before(b),
        spares_before(b) <= b,
        a < b && !printable(a) ==> spares_before(a) < spares_before(b),
    decreases b,
{
    if b > 0 {
        if a < b {
            lemma_spares_grow(a, b - 1);
        } else {
            lemma_spares_grow(b - 1, b - 1);
        }
    }
}

/// No two bytes share a symbol.
proof fn lemma_symbols_differ(a: int, b: int)
    requires
        0 <= a < b < 256,
    ensures
        symbol_of(a) != symbol_of(b),
        0 <= symbol_of(a) < 513,
        0 <= symbol_of(b) < 513,
        symbol_of(a) as u32 != symbol_of(b) as u32,
{
    lemma_spares_grow(a, b);
    lemma_spares_grow(0, a);
    lemma_spares_grow(0, b);
}

/// Undoes GPT-2's byte remapping: from the symbol's code point to the byte.
pub fn byte_decoder() -> (table: HashMap<u32, u8>)
    ensures
        table@.dom().len() == 256,
        forall|b: int| 0 <= b < 256 ==> #[trigger] table@.contains_key(symbol_of(b) as u32)
            && table@[symbol_of(b) as u32] == b as u8,
        forall|k: u32| #[trigger] table@.contains_key(k) ==> exists|b: int| 0 <= b < 256 && symbol_of(b) == k,
{
    let mut table: HashMap<u32, u8> = HashMap::new();
    let mut next_spare: u32 = 0;
    let mut byte: u32 = 0;
    while byte < 256
        invariant
            byte <= 256,
            next_spare == spares_before(byte as int),
            next_spare <= byte,
            table@.dom().finite(),
            table@.dom().len() == byte,
            forall|b: int| 0 <= b < byte ==> #[trigger] table@.contains_key(symbol_of(b) as u32)
                && table@[symbol_of(b) as u32] == b as u8,
            forall|k: u32| #[trigger] table@.contains_key(k) ==> exists|b: int| 0 <= b < byte && symbol_of(b) == k,
        decreases 256 - byte,
    {
        proof {
            lemma_spares_grow(byte as int, byte as int);
        }
        let printable_byte = (0x21 <= byte && byte <= 0x7E) || (0xA1 <= byte && byte <= 0xAC) || (0xAE
            <= byte && byte <= 0xFF);
        let symbol: u32 = if printable_byte {
            byte
        } else {
            next_spare = next_spare + 1;
            255 + next_spare
        };
        proof {
            assert(symbol == symbol_of(byte as int));
            assert(!table@.contains_key(symbol)) by {
                if table@.contains_key(symbol) {
                    let b = choose|b: int| 0 <= b < byte && symbol_of(b) == symbol;
                    lemma_symbols_differ(b, byte as int);
                }
            }
        }
        table.insert(symbol, byte as u8);
        proof {
            assert forall|b: int| 0 <= b < byte + 1 implies #[trigger] table@.contains_key(symbol_of(b) as u32)
                && table@[symbol_of(b) as u32] == b as u8 by {
                if b < byte {
                    lemma_symbols_differ(b, byte as int);
                }
            }
            assert forall|k: u32| #[trigger] table@.contains_key(k) implies exists|b: int|
                0 <= b < byte + 1 && symbol_of(b) == k by {
                if k != symbol {
                    let b = choose|b: int| 0 <= b < byte && symbol_of(b) == k;
                    assert(0 <= b < byte + 1 && symbol_of(b) == k);
                } else {
                    assert(symbol_of(byte as int) == k);
                }
            }
        }
        byte = byte + 1;
    }
    table
}

/// Whether the `n` tokens from `k` on open with the `n - 1` tokens the sentence
/// ends with, so that their last token would repeat the run.
pub open spec fn window_repeats(g: Seq<i64>, n: int, k: int) -> bool {
    g.subrange(k, k + n - 1) == g.subrange(g.len() - (n - 1), g.len() as int)
}

/// The closing tokens of the repeating windows among the first `m`, in order.
pub open spec fn banned_upto(g: Seq<i64>, n: int, m: int) -> Seq<i64>
    decreases m,
{
    if m <= 0 {
        Seq::empty()
    } else if window_repeats(g, n, m - 1) {
        banned_upto(g, n, m - 1).push(g[m - 1 + n - 1])
    } else {
        banned_upto(g, n, m - 1)
    }
}

/// The tokens that would repeat an `n`-token run the sentence already contains:
/// nothing before the first run of `n` exists.
pub open spec fn banned(g: Seq<i64>, n: int) -> Seq<i64> {
    if g.len() < n {
        Seq::empty()
    } else {
        banned_upto(g, n, g.len() - n + 1)
    }
}

fn repeats_at(g: &[i64], n: usize, k: usize) -> (r: bool)
    requires
        1 <= n <= g@.len(),
        k + n <= g@.len(),
    ensures
        r == window_repeats(g@, n as int, k as int),
{
    let len = g.len();
    let ghost a = g@.subrange(k as int, k + n - 1);
    let ghost b = g@.subrange(len - (n - 1), len as int);
    let mut j: usize = 0;
    while j < n - 1
        invariant
            1 <= n <= len,
            len == g@.len(),
            k + n <= len,
            j <= n - 1,
            a == g@.subrange(k as int, k + n - 1),
            b == g@.subrange(len - (n - 1), len as int),
            forall|i: int| 0 <= i < j ==> a[i] == b[i],
        decreases n - 1 - j,
    {
        if g[k + j] != g[len - (n - 1) + j] {
            proof {
                assert(a[j as int] != b[j as int]);
            }
            return false;
        }
        j = j + 1;
    }
    proof {
        assert(a =~= b);
    }
    true
}

/// The tokens that would repeat an `n`-token run this sentence already contains.
pub fn banned_next(generated: &[i64], n: usize) -> (r: Vec<i64>)
    requires
        n >= 1,
    ensures
        r@ == banned(generated@, n as int),
{
    let len = generated.len();
    let mut out: Vec<i64> = Vec::new();
    if len < n {
        return out;
    }
    let mut k: usize = 0;
    while k <= len - n
        invariant
            1 <= n <= len,
            len == generated@.len(),
            k <= len - n + 1,
            out@ == banned_upto(generated@, n as int, k as int),
        decreases len - n + 1 - k,
    {
        if repeats_at(generated, n, k) {
            out.push(generated[k + n - 1]);
        }
        k = k + 1;
    }
    out
}

/// A token is banned exactly when it closes an earlier run that opens with the
/// tokens the sentence ends with.
pub proof fn lemma_banned_tokens_close_a_repeat(g: Seq<i64>, n: int, token: i64)
    requires
        n >= 1,
        g.len() >= n,
    ensures
        banned(g, n).contains(token) <==> exists|k: int|
            0 <= k <= g.len() - n && window_repeats(g, n, k) && #[trigger] g[k + n - 1] == token,
{
    lemma_banned_upto(g, n, g.len() - n + 1, token);
}

proof fn lemma_banned_upto(g: Seq<i64>, n: int, m: int, token: i64)
    requires
        n >= 1,
        0 <= m <= g.len() - n + 1,
    ensures
        banned_upto(g, n, m).contains(token) <==> exists|k: int|
            0 <= k < m && window_repeats(g, n, k) && #[trigger] g[k + n - 1] == token,
    decreases m,
{
    if m > 0 {
        lemma_banned_upto(g, n, m - 1, token);
        let rest = banned_upto(g, n, m - 1);
        if window_repeats(g, n, m - 1) {
            let last = m - 1 + n - 1;
            assert(rest.push(g[last]).contains(token) <==> (rest.contains(token) || g[last] == token)) by {
                if rest.push(g[last]).contains(token) {
                    let i = choose|i: int| 0 <= i < rest.len() + 1 && rest.push(g[last])[i] == token;
                    if i < rest.len() {
                        assert(rest[i] == token);
                    }
                }
                if rest.contains(token) {
                    let i = choose|i: int| 0 <= i < rest.len() && rest[i] == token;
                    assert(rest.push(g[last])[i] == token);
                }
                if g[last] == token {
                    assert(rest.push(g[last])[rest.len() as int] == token);
                }
            }
        }
    }
}

/// What `String::from_utf8_lossy` gives for `bytes`: the text, with each invalid
/// sequence replaced by U+FFFD.
pub uninterp spec fn lossy_utf8(bytes: Seq<u8>) -> Seq<char>;

/// Calls `String::from_utf8_lossy`. As its documentation says, valid UTF-8 comes
/// back unchanged.
#[verifier::external_body]
pub(crate) fn utf8_lossy(bytes: &[u8]) -> (r: String)
    ensures
        r@ == lossy_utf8(bytes@),
        valid_utf8(bytes@) ==> r@ == decode_utf8(bytes@),
{
    String::from_utf8_lossy(bytes).into_owned()
}

/// The symbols of the tokens `ids` names, in order; ids outside the vocabulary
/// name nothing.
pub open spec fn token_symbols(ids: Seq<i64>, vocab: Seq<Seq<char>>) -> Seq<char>
    decreases ids.len(),
{
    if ids.len() == 0 {
        Seq::empty()
    } else if 0 <= ids.last() < vocab.len() {
        token_symbols(ids.drop_last(), vocab) + vocab[ids.last() as int]
    } else {
        token_symbols(ids.drop_last(), vocab)
    }
}

/// The bytes the symbols stand for; a symbol outside the table stands for none.
pub open spec fn symbol_bytes(symbols: Seq<char>, table: Map<u32, u8>) -> Seq<u8>
    decreases symbols.len(),
{
    if symbols.len() == 0 {
        Seq::empty()
    } else if table.contains_key(symbols.last() as u32) {
        symbol_bytes(symbols.drop_last(), table).push(table[symbols.last() as u32])
    } else {
        symbol_bytes(symbols.drop_last(), table)
    }
}

/// The sentence generated ids make. The first id is the start marker and stands
/// for no word; without a vocabulary there is no sentence.
pub open spec fn caption_text(ids: Seq<i64>, vocab: Seq<Seq<char>>, table: Map<u32, u8>) -> Seq<char> {
    if vocab.len() == 0 {
        Seq::empty()
    } else {
        let words = if ids.len() > 0 {
            ids.drop_first()
        } else {
            ids
        };
        trim_by(lossy_utf8(symbol_bytes(token_symbols(words, vocab), table)), ws())
    }
}

/// Token ids to sentence, undoing GPT-2's byte remapping.
pub fn decode_tokens(ids: &[i64], vocab: &Vec<String>, table: &HashMap<u32, u8>) -> (r: String)
    ensures
        r@ == caption_text(ids@, strings_view(vocab@), table@),
{
    let ghost words = if ids@.len() > 0 {
        ids@.drop_first()
    } else {
        ids@
    };
    let ghost vv = strings_view(vocab@);
    if vocab.len() == 0 {
        return String::new();
    }
    let mut symbols: Vec<char> = Vec::new();
    if ids.len() == 0 {
        proof {
            assert(words =~= Seq::<i64>::empty());
        }
    } else {
        let mut i: usize = 1;
        proof {
            assert(words.take(0) =~= Seq::<i64>::empty());
        }
        while i < ids.len()
            invariant
                ids@.len() > 0,
                words == ids@.drop_first(),
                vv == strings_view(vocab@),
                1 <= i <= ids@.len(),
                symbols@ == token_symbols(words.take(i - 1), vv),
            decreases ids@.len() - i,
        {
            let id = ids[i];
            proof {
                assert(words.take(i as int).drop_last() =~= words.take(i - 1));
                assert(words.take(i as int).last() == id);
            }
            if id >= 0 && (id as u64) < (vocab.len() as u64) {
                let token = chars_of(vocab[id as usize].as_str());
                push_chars(&mut symbols, &token);
            }
            i = i + 1;
        }
        proof {
            assert(words.take(i - 1) =~= words);
        }
    }
    let mut bytes: Vec<u8> = Vec::new();
    let mut k: usize = 0;
    while k < symbols.len()
        invariant
            k <= symbols@.len(),
            bytes@ == symbol_bytes(symbols@.take(k as int), table@),
        decreases symbols@.len() - k,
    {
        let c = symbols[k];
        proof {
            assert(symbols@.take(k + 1).drop_last() =~= symbols@.take(k as int));
        }
        match table.get(&(c as u32)) {
            Some(b) => bytes.push(*b),
            None => {},
        }
        k = k + 1;
    }
    proof {
        assert(symbols@.take(k as int) =~= symbols@);
    }
    let text = utf8_lossy(bytes.as_slice());
    let text_chars = chars_of(text.as_str());
    let trimmed = trim_whitespace(&text_chars);
    string_from_chars(&trimmed)
}

/// The largest id, or 0 when there are none.
pub open spec fn max_id(ids: Seq<i64>) -> int
    decreases ids.len(),
{
    if ids.len() == 0 {
        0
    } else if ids.last() > max_id(ids.drop_last()) {
        ids.last() as int
    } else {
        max_id(ids.drop_last())
    }
}

/// The token `entries` give for id `p`: the last one listed with that id, or
/// nothing.
pub open spec fn token_for(entries: Seq<(String, i64)>, p: int) -> Seq<char>
    decreases entries.len(),
{
    if entries.len() == 0 {
        Seq::empty()
    } else if entries.last().1 == p {
        entries.last().0@
    } else {
        token_for(entries.drop_last(), p)
    }
}

/// The ids of the entries, in order.
pub open spec fn entry_ids(entries: Seq<(String, i64)>) -> Seq<i64> {
    entries.map_values(|e: (String, i64)| e.1)
}

proof fn lemma_max_id_bounds(ids: Seq<i64>)
    ensures
        max_id(ids) >= 0,
        forall|k: int| 0 <= k < ids.len() ==> ids[k] <= max_id(ids),
    decreases ids.len(),
{
    if ids.len() > 0 {
        lemma_max_id_bounds(ids.drop_last());
        assert forall|k: int| 0 <= k < ids.len() implies ids[k] <= max_id(ids) by {
            if k < ids.len() - 1 {
                assert(ids[k] == ids.drop_last()[k]);
            }
        }
    }
}

/// Inverts the vocabulary file's token-to-id map into an id-indexed table, given
/// its entries in the order they are read.
pub fn vocab_table(entries: &Vec<(String, i64)>) -> (table: Vec<String>)
    requires
        forall|k: int| 0 <= k < entries@.len() ==> 0 <= (#[trigger] entries@[k]).1,
        max_id(entry_ids(entries@)) < usize::MAX,
    ensures
        table@.len() == max_id(entry_ids(entries@)) + 1,
        forall|p: int| 0 <= p < table@.len() ==> (#[trigger] table@[p])@ == token_for(entries@, p),
{
    let ghost ids = entry_ids(entries@);
    let mut top: i64 = 0;
    let mut k: usize = 0;
    while k < entries.len()
        invariant
            ids == entry_ids(entries@),
            k <= entries@.len(),
            top == max_id(ids.take(k as int)),
        decreases entries@.len() - k,
    {
        proof {
            assert(ids.take(k + 1).drop_last() =~= ids.take(k as int));
        }
        if entries[k].1 > top {
            top = entries[k].1;
        }
        k = k + 1;
    }
    proof {
        assert(ids.take(k as int) =~= ids);
        lemma_max_id_bounds(ids);
        assert forall|j: int| 0 <= j < entries@.len() implies 0 <= (#[trigger] entries@[j]).1 <= max_id(ids) by {
            assert(ids[j] == entries@[j].1);
        }
    }
    let size: usize = (top as usize) + 1;
    let mut table: Vec<String> = Vec::new();
    while table.len() < size
        invariant
            table@.len() <= size,
            forall|p: int| 0 <= p < table@.len() ==> (#[trigger] table@[p])@ == Seq::<char>::empty(),
        decreases size - table@.len(),
    {
        table.push(String::new());
    }
    let mut k: usize = 0;
    while k < entries.len()
        invariant
            ids == entry_ids(entries@),
            size == max_id(ids) + 1,
            forall|j: int| 0 <= j < entries@.len() ==> 0 <= (#[trigger] entries@[j]).1 <= max_id(ids),
            k <= entries@.len(),
            table@.len() == size,
            forall|p: int| 0 <= p < size ==> (#[trigger] table@[p])@ == token_for(entries@.take(k as int), p),
        decreases entries@.len() - k,
    {
        let id = entries[k].1 as usize;
        let token = entries[k].0.clone();
        table.set(id, token);
        proof {
            assert(entries@.take(k + 1).drop_last() =~= entries@.take(k as int));
            assert forall|p: int| 0 <= p < size implies (#[trigger] table@[p])@ == token_for(
                entries@.take(k + 1),
                p,
            ) by {
                assert(entries@.take(k + 1).last() == entries@[k as int]);
            }
        }
        k = k + 1;
    }
    proof {
        assert(entries@.take(k as int) =~= entries@);
    }
    table
}

} // verus!
