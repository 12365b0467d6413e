//! Human-comparable renderings of a fingerprint: word lists, symbol
//! lists and a phone-number-shaped tail, derived from the fingerprint
//! bytes by fair fixed-width sampling.
//!
//! The symbol tables (the word list and the emoji list) are data of the
//! presentation layer and are handed in by the caller; the sampling,
//! selection and formatting logic here is verified against them.

use vstd::prelude::*;

use crate::handle::UserHandle;
use crate::InternalErr;

verus! {

/// The base-256 value of `l` bytes at `offset`, with the leading byte
/// masked to its low seven bits so that every table entry stays
/// reachable under the modulus.
pub open spec fn n_fair(arr: Seq<u8>, offset: int, l: int) -> int
    decreases l,
{
    if l <= 0 {
        0
    } else if l == 1 {
        (arr[offset] as int) % 128
    } else {
        n_fair(arr, offset, l - 1) * 256 + (arr[offset + l - 1] as int)
    }
}

/// `n_fair` stays below `128 * 256^(l-1)`, so eight bytes fit a `u64`.
proof fn lemma_n_fair_bound(arr: Seq<u8>, offset: int, l: int, cap: int)
    requires
        1 <= l,
        n_fair_cap(l) <= cap,
    ensures
        0 <= n_fair(arr, offset, l) < cap,
    decreases l,
{
    if l == 1 {
    } else {
        lemma_n_fair_bound(arr, offset, l - 1, n_fair_cap(l - 1));
    }
}

/// The exclusive upper bound of `n_fair` over `l` bytes.
pub open spec fn n_fair_cap(l: int) -> int
    decreases l,
{
    if l <= 1 {
        128
    } else {
        n_fair_cap(l - 1) * 256
    }
}

/// Read `l` bytes at `offset` as one fair number.  Mirrors the sampling
/// the visual key is built from: a zero-length read is zero, an
/// oversized request is refused, and at most eight bytes are read so
/// the value fits.
pub fn bytes_to_n_fair(arr: &Vec<u8>, offset: u64, l: u64) -> (r: Result<u64, InternalErr>)
    requires
        l <= 8,
        l == 0 || l as int > arr@.len() || offset + l <= arr@.len(),
    ensures
        match r {
            Ok(v) => (l == 0 || offset + l <= arr@.len()) && v as int == n_fair(
                arr@,
                offset as int,
                l as int,
            ),
            Err(e) => l as int > arr@.len() && l > 0 && e matches InternalErr::Generic(_),
        },
{
    let alen = arr.len();
    if l == 0 {
        return Ok(0);
    }
    if l as usize > alen {
        return Err(InternalErr::Generic("huge"));
    }
    proof {
        lemma_n_fair_bound(arr@, offset as int, 1, 128);
        assert(offset < alen as u64 || offset + l <= alen);
    }
    let mut v: u64 = (arr[offset as usize] % 128) as u64;
    let mut n: u64 = 1;
    while n < l
        invariant
            1 <= n <= l <= 8,
            alen == arr@.len(),
            offset + l <= alen,
            v as int == n_fair(arr@, offset as int, n as int),
        decreases l - n,
    {
        proof {
            lemma_n_fair_cap_mono(n as int);
            lemma_n_fair_bound(arr@, offset as int, n as int, n_fair_cap(n as int));
            assert(v < 0x80000000000000);
            assert(offset + n < alen);
        }
        let b = arr[(offset + n) as usize];
        v = v * 256 + (b as u64);
        proof {
            assert(v as int == n_fair(arr@, offset as int, n as int + 1));
        }
        n = n + 1;
    }
    Ok(v)
}

/// `n_fair_cap` of at most seven doublings stays under `2^55`.
proof fn lemma_n_fair_cap_mono(l: int)
    requires
        1 <= l <= 7,
    ensures
        n_fair_cap(l) <= 0x80000000000000,
    decreases l,
{
    assert(n_fair_cap(1) == 128);
    assert(n_fair_cap(2) == 32768);
    assert(n_fair_cap(3) == 8388608);
    assert(n_fair_cap(4) == 2147483648);
    assert(n_fair_cap(5) == 549755813888);
    assert(n_fair_cap(6) == 140737488355328);
    assert(n_fair_cap(7) == 36028797018963968);
}

/// How many bytes one table index consumes: one byte addresses up to
/// 256 entries, two bytes up to 65536.
pub open spec fn chunk_width_spec(table_len: int) -> int {
    if table_len <= 256 {
        1
    } else {
        2
    }
}

/// The entries selected from `table` by the fair samples of `data`.
pub open spec fn visual_words(data: Seq<u8>, table: Seq<Seq<char>>) -> Seq<Seq<char>> {
    let n = chunk_width_spec(table.len() as int);
    Seq::new(
        (data.len() / n as nat) as nat,
        |i: int| table[n_fair(data, i * n, n) % (table.len() as int)],
    )
}

/// Select one table entry per chunk of `data`.  The table must hold at
/// least two entries and at most 65536, and `data` must split evenly
/// into chunks.
fn data_to_words(data: &Vec<u8>, table: &Vec<String>) -> (r: Vec<String>)
    requires
        2 <= table@.len() <= 65536,
        data@.len() % (chunk_width_spec(table@.len() as int) as nat) == 0,
    ensures
        r.deep_view() == visual_words(data@, table.deep_view()),
{
    let n: usize = if table.len() <= 256 {
        1
    } else {
        2
    };
    let ghost words = visual_words(data@, table.deep_view());
    let count = data.len() / n;
    let mut out: Vec<String> = Vec::new();
    let mut i: usize = 0;
    proof {
        assert(out.deep_view() =~= words.subrange(0, 0));
    }
    while i < count
        invariant
            i <= count,
            n == chunk_width_spec(table@.len() as int),
            1 <= n <= 2,
            2 <= table@.len() <= 65536,
            count == data@.len() / n as nat,
            data@.len() % n as nat == 0,
            words == visual_words(data@, table.deep_view()),
            out.deep_view() == words.subrange(0, i as int),
        decreases count - i,
    {
        proof {
            assert(i * n + n <= count * n) by (nonlinear_arith)
                requires
                    i + 1 <= count,
                    1 <= n,
            ;
            assert(count * n == data@.len()) by (nonlinear_arith)
                requires
                    count == data@.len() / n as nat,
                    data@.len() % n as nat == 0,
                    1 <= n,
            ;
            assert(i * n + n <= data@.len());
        }
        let _bound = data.len();
        let v = match bytes_to_n_fair(data, (i * n) as u64, n as u64) {
            Ok(v) => v,
            Err(_) => {
                proof {
                    assert(false);
                }
                0
            },
        };
        let sel = (v % (table.len() as u64)) as usize;
        proof {
            assert(table.deep_view()[sel as int] == table@[sel as int]@);
            assert(words[i as int] == table.deep_view()[sel as int]);
        }
        let ghost o_old = out.deep_view();
        out.push(table[sel].clone());
        proof {
            assert(out.deep_view() =~= o_old.push(table@[sel as int]@));
            assert(out.deep_view() =~= words.subrange(0, i + 1));
        }
        i += 1;
    }
    proof {
        assert(words.subrange(0, count as int) =~= words) by {
            assert(words.len() == count);
        }
    }
    out
}

/// Render `data` as emoji picked from the given symbol table.
pub fn data_to_emoji(data: &Vec<u8>, table: &Vec<String>) -> (r: Result<Vec<String>, InternalErr>)
    requires
        2 <= table@.len() <= 65536,
        data@.len() % (chunk_width_spec(table@.len() as int) as nat) == 0,
    ensures
        r matches Ok(v) && v.deep_view() == visual_words(data@, table.deep_view()),
{
    Ok(data_to_words(data, table))
}

/// Render `data` as root words picked from the given word table.
pub fn data_to_gismu(data: &Vec<u8>, table: &Vec<String>) -> (r: Result<Vec<String>, InternalErr>)
    requires
        2 <= table@.len() <= 65536,
        data@.len() % (chunk_width_spec(table@.len() as int) as nat) == 0,
    ensures
        r matches Ok(v) && v.deep_view() == visual_words(data@, table.deep_view()),
{
    Ok(data_to_words(data, table))
}

/// The word pairs used for compound building: consecutive selections
/// two at a time, the last one unpaired when the count is odd.
pub open spec fn visual_pairs(words: Seq<Seq<char>>) -> Seq<(Seq<char>, Option<Seq<char>>)> {
    Seq::new(
        ((words.len() + 1) / 2) as nat,
        |k: int|
            (
                words[2 * k],
                if 2 * k + 1 < words.len() {
                    Some(words[2 * k + 1])
                } else {
                    None
                },
            ),
    )
}

/// Render `data` as word pairs for compound building.
pub fn data_to_gismu_2(data: &Vec<u8>, table: &Vec<String>) -> (r: Result<
    Vec<(String, Option<String>)>,
    InternalErr,
>)
    requires
        2 <= table@.len() <= 65536,
        chunk_width_spec(table@.len() as int) == 2,
        data@.len() % (chunk_width_spec(table@.len() as int) as nat) == 0,
    ensures
        r matches Ok(v) && v.deep_view() == visual_pairs(visual_words(data@, table.deep_view())),
{
    let words = data_to_words(data, table);
    let ghost pairs = visual_pairs(words.deep_view());
    proof {
        assert(words.deep_view().len() <= data@.len());
    }
    let mut out: Vec<(String, Option<String>)> = Vec::new();
    let mut k: usize = 0;
    proof {
        assert(out.deep_view() =~= pairs.subrange(0, 0));
    }
    let dlen = data.len();
    let wlen = words.len();
    while 2 * k < wlen
        invariant
            2 * k <= words@.len() + 1,
            k <= wlen,
            wlen == words@.len(),
            dlen == data@.len(),
            2 * wlen <= data@.len() + 1,
            pairs == visual_pairs(words.deep_view()),
            pairs.len() == (words.deep_view().len() + 1) / 2,
            out.deep_view() == pairs.subrange(0, k as int),
        decreases wlen - k,
    {
        let ghost o_old = out.deep_view();
        proof {
            assert(words.deep_view()[2 * k] == words@[2 * k as int]@);
        }
        let first = words[2 * k].clone();
        let entry: (String, Option<String>) = if 2 * k + 1 < words.len() {
            proof {
                assert(words.deep_view()[2 * k + 1] == words@[2 * k as int + 1]@);
            }
            (first, Some(words[2 * k + 1].clone()))
        } else {
            (first, None)
        };
        out.push(entry);
        proof {
            assert(k < pairs.len());
            assert(out.deep_view() =~= o_old.push(pairs[k as int]));
            assert(out.deep_view() =~= pairs.subrange(0, k + 1));
        }
        k += 1;
    }
    proof {
        assert(pairs.subrange(0, pairs.len() as int) =~= pairs);
        assert(out.deep_view() =~= pairs);
    }
    Ok(out)
}

/// Every entry of a word table stays within the length the compound
/// builder digests safely.
pub open spec fn table_bounded(table: Seq<Seq<char>>) -> bool {
    forall|i: int| 0 <= i < table.len() ==> (#[trigger] table[i]).len() <= 4096
}

/// The compound word built from a pair of root words, when the
/// underlying word-building rules admit one.  The result depends on the
/// two words alone.
pub uninterp spec fn lujvo_of(g1: Seq<char>, g2: Seq<char>) -> Option<Seq<char>>;

/// Relies on latkerlo_jvotci::jvozba::get_lujvo_from_list with default
/// settings: builds the best compound of the two root words, an error
/// when none exists; deterministic in its inputs.  The crate's internal
/// scoring is proportional to word length and aborts on overflow for
/// words of millions of characters, so inputs are bounded well below
/// that; any real word table satisfies the bound.
#[verifier::external_body]
fn lujvo_pair(g1: &String, g2: &String) -> (r: Option<String>)
    requires
        g1@.len() <= 4096,
        g2@.len() <= 4096,
    ensures
        match r {
            Some(s) => lujvo_of(g1@, g2@) == Some(s@),
            None => lujvo_of(g1@, g2@) is None,
        },
{
    let words = [g1.clone(), g2.clone()];
    match latkerlo_jvotci::jvozba::get_lujvo_from_list(
        &words,
        &latkerlo_jvotci::tarmi::Settings::default(),
    ) {
        Ok(v) => Some(v.0),
        Err(_) => None,
    }
}

/// The compound words of the pair list: a compound for a full pair, the
/// bare word for an unpaired tail.
pub open spec fn combined_ok(
    pairs: Seq<(Seq<char>, Option<Seq<char>>)>,
    out: Seq<Seq<char>>,
) -> bool {
    &&& out.len() == pairs.len()
    &&& forall|k: int|
        0 <= k < pairs.len() ==> (match (#[trigger] pairs[k]).1 {
            Some(g2) => lujvo_of(pairs[k].0, g2) == Some(out[k]),
            None => out[k] == pairs[k].0,
        })
}

/// Build one compound word per pair; `Generic` when the word-building
/// rules refuse a pair.
pub fn lujvo_combined(data: &Vec<u8>, table: &Vec<String>) -> (r: Result<Vec<String>, InternalErr>)
    requires
        2 <= table@.len() <= 65536,
        chunk_width_spec(table@.len() as int) == 2,
        data@.len() % (chunk_width_spec(table@.len() as int) as nat) == 0,
        table_bounded(table.deep_view()),
    ensures
        r matches Ok(v) ==> combined_ok(
            visual_pairs(visual_words(data@, table.deep_view())),
            v.deep_view(),
        ),
        r is Err ==> r matches Err(InternalErr::Generic(_)),
{
    let pairs = match data_to_gismu_2(data, table) {
        Ok(p) => p,
        Err(e) => {
            return Err(InternalErr::Generic("sampling failed"));
        },
    };
    let ghost pv = pairs.deep_view();
    let ghost words = visual_words(data@, table.deep_view());
    proof {
        assert forall|m: int| 0 <= m < words.len() implies (#[trigger] words[m]).len()
            <= 4096 by {
            let n = chunk_width_spec(table.deep_view().len() as int);
            let sel = n_fair(data@, m * n, n) % (table.deep_view().len() as int);
            assert(words[m] == table.deep_view()[sel]);
            assert(0 <= sel < table.deep_view().len());
        }
    }
    let mut out: Vec<String> = Vec::new();
    let mut k: usize = 0;
    while k < pairs.len()
        invariant
            k <= pairs@.len(),
            pv == pairs.deep_view(),
            pv == visual_pairs(words),
            forall|m: int| 0 <= m < words.len() ==> (#[trigger] words[m]).len() <= 4096,
            out.deep_view().len() == k,
            forall|j: int|
                0 <= j < k ==> (match (#[trigger] pv[j]).1 {
                    Some(g2) => lujvo_of(pv[j].0, g2) == Some(out.deep_view()[j]),
                    None => out.deep_view()[j] == pv[j].0,
                }),
        decreases pairs@.len() - k,
    {
        proof {
            assert(pv[k as int] == pairs@[k as int].deep_view());
            assert(pv.len() == (words.len() + 1) / 2);
            assert(2 * (k as int) < words.len());
            assert(pv[k as int].0 == words[2 * (k as int)]);
            match pv[k as int].1 {
                Some(g2v) => {
                    assert(2 * (k as int) + 1 < words.len());
                    assert(g2v == words[2 * (k as int) + 1]);
                },
                None => {},
            }
        }
        let ghost o_old = out.deep_view();
        let entry = &pairs[k];
        match &entry.1 {
            Some(g2) => {
                match lujvo_pair(&entry.0, g2) {
                    Some(w) => {
                        let ghost wv = w@;
                        out.push(w);
                        proof {
                            assert(out.deep_view() =~= o_old.push(wv));
                        }
                    },
                    None => {
                        return Err(InternalErr::Generic("no compound for this pair"));
                    },
                }
            },
            None => {
                let w = entry.0.clone();
                let ghost wv = w@;
                out.push(w);
                proof {
                    assert(out.deep_view() =~= o_old.push(wv));
                }
            },
        }
        k += 1;
    }
    Ok(out)
}

/// The decimal digit character for a value below ten.
pub open spec fn digit_char(v: int) -> char {
    crate::handle::hex_char(v)
}

/// The phone-number-shaped rendering of a four-byte sample: country
/// code, then area, middle and final groups with fixed widths.
pub open spec fn phone_chars(data: Seq<u8>) -> Seq<char> {
    let v = n_fair(data, 0, 4) % 9999999999;
    let country = v / 1000000000 + 1;
    let number = v % 1000000000;
    let area = number / 10000000;
    let mid = (number % 10000000) / 10000;
    let end = number % 10000;
    seq!['+'] + (if country >= 10 {
        seq![digit_char(country / 10), digit_char(country % 10)]
    } else {
        seq![digit_char(country)]
    }) + seq![' ', '8', digit_char(area / 10), digit_char(area % 10), '-', digit_char(mid / 100),
        digit_char((mid / 10) % 10), digit_char(mid % 10), '-', digit_char(end / 1000),
        digit_char((end / 100) % 10), digit_char((end / 10) % 10), digit_char(end % 10)]
}

/// Append one decimal digit.
fn push_digit(s: &mut String, v: u64)
    requires
        v < 10,
    ensures
        final(s)@ == old(s)@.push(digit_char(v as int)),
{
    let c: char = match v {
        0 => '0',
        1 => '1',
        2 => '2',
        3 => '3',
        4 => '4',
        5 => '5',
        6 => '6',
        7 => '7',
        8 => '8',
        _ => '9',
    };
    s.push(c);
}

/// Render exactly four bytes as the phone-shaped tail of the visual
/// key; `Generic` on any other length.
#[verifier::rlimit(100)]
pub fn data_to_phone(data: &Vec<u8>) -> (r: Result<String, InternalErr>)
    ensures
        match r {
            Ok(s) => data@.len() == 4 && s@ == phone_chars(data@),
            Err(e) => data@.len() != 4 && e matches InternalErr::Generic(_),
        },
{
    if data.len() != 4 {
        return Err(InternalErr::Generic("wrong length for phone"));
    }
    let raw = match bytes_to_n_fair(data, 0, 4) {
        Ok(v) => v,
        Err(_) => {
            proof {
                assert(false);
            }
            0
        },
    };
    let v = raw % 9999999999;
    let country = v / 1000000000 + 1;
    let number = v % 1000000000;
    let area = number / 10000000;
    let mid = (number % 10000000) / 10000;
    let end = number % 10000;
    let mut s = String::new();
    s.push('+');
    if country >= 10 {
        push_digit(&mut s, country / 10);
        push_digit(&mut s, country % 10);
    } else {
        push_digit(&mut s, country);
    }
    s.push(' ');
    s.push('8');
    push_digit(&mut s, area / 10);
    push_digit(&mut s, area % 10);
    s.push('-');
    push_digit(&mut s, mid / 100);
    push_digit(&mut s, (mid / 10) % 10);
    push_digit(&mut s, mid % 10);
    s.push('-');
    push_digit(&mut s, end / 1000);
    push_digit(&mut s, (end / 100) % 10);
    push_digit(&mut s, (end / 10) % 10);
    push_digit(&mut s, end % 10);
    proof {
        assert(s@ =~= phone_chars(data@));
    }
    Ok(s)
}

/// The three human-comparable renderings of a fingerprint.
#[derive(Debug)]
pub struct VisualKey {
    pub gismu: Vec<String>,
    pub emoji: Vec<String>,
    pub phone: String,
}

impl UserHandle {
    /// Split a fingerprint of at least twenty bytes into its visual
    /// parts: words from the first eight bytes, symbols from the next
    /// eight, the phone-shaped tail from the last four.
    pub fn separate(&self, gismu_table: &Vec<String>, emoji_table: &Vec<String>) -> (r: Result<
        VisualKey,
        InternalErr,
    >)
        requires
            2 <= gismu_table@.len() <= 65536,
            2 <= emoji_table@.len() <= 65536,
            chunk_width_spec(gismu_table@.len() as int) == 2,
            chunk_width_spec(emoji_table@.len() as int) == 2,
        ensures
            match r {
                Ok(v) => {
                    &&& self.bytes_view().len() >= 20
                    &&& v.gismu.deep_view() == visual_words(
                        self.bytes_view().subrange(0, 8),
                        gismu_table.deep_view(),
                    )
                    &&& v.emoji.deep_view() == visual_words(
                        self.bytes_view().subrange(8, 16),
                        emoji_table.deep_view(),
                    )
                    &&& v.phone@ == phone_chars(self.bytes_view().subrange(16, 20))
                },
                Err(e) => self.bytes_view().len() < 20 && e matches InternalErr::Generic(_),
            },
    {
        let fp = self.as_bytes();
        if fp.len() < 20 {
            return Err(InternalErr::Generic("data too small for composite"));
        }
        let head = crate::handle::sub_bytes(&fp, 0, 8);
        let midb = crate::handle::sub_bytes(&fp, 8, 16);
        let tail = crate::handle::sub_bytes(&fp, 16, 20);
        proof {
            assert(head@.len() == 8 && midb@.len() == 8);
            assert(8nat % (chunk_width_spec(gismu_table@.len() as int) as nat) == 0);
            assert(8nat % (chunk_width_spec(emoji_table@.len() as int) as nat) == 0);
        }
        let gismu = data_to_words(&head, gismu_table);
        let emoji = data_to_words(&midb, emoji_table);
        let phone = match data_to_phone(&tail) {
            Ok(p) => p,
            Err(_) => {
                return Err(InternalErr::Generic("wrong length for phone"));
            },
        };
        Ok(VisualKey { gismu, emoji, phone })
    }

    /// Like `separate`, but with the first sixteen bytes all rendered
    /// as words for compound building and no symbols.
    pub fn separate_lujvo(&self, gismu_table: &Vec<String>) -> (r: Result<VisualKey, InternalErr>)
        requires
            2 <= gismu_table@.len() <= 65536,
            chunk_width_spec(gismu_table@.len() as int) == 2,
        ensures
            match r {
                Ok(v) => {
                    &&& self.bytes_view().len() >= 20
                    &&& v.gismu.deep_view() == visual_words(
                        self.bytes_view().subrange(0, 16),
                        gismu_table.deep_view(),
                    )
                    &&& v.emoji.deep_view() == Seq::<Seq<char>>::empty()
                    &&& v.phone@ == phone_chars(self.bytes_view().subrange(16, 20))
                },
                Err(e) => self.bytes_view().len() < 20 && e matches InternalErr::Generic(_),
            },
    {
        let fp = self.as_bytes();
        if fp.len() < 20 {
            return Err(InternalErr::Generic("data too small for composite"));
        }
        let head = crate::handle::sub_bytes(&fp, 0, 16);
        let tail = crate::handle::sub_bytes(&fp, 16, 20);
        proof {
            assert(head@.len() == 16);
            assert(16nat % (chunk_width_spec(gismu_table@.len() as int) as nat) == 0);
        }
        let gismu = data_to_words(&head, gismu_table);
        let emoji: Vec<String> = Vec::new();
        let phone = match data_to_phone(&tail) {
            Ok(p) => p,
            Err(_) => {
                return Err(InternalErr::Generic("wrong length for phone"));
            },
        };
        proof {
            assert(emoji.deep_view() =~= Seq::<Seq<char>>::empty());
        }
        Ok(VisualKey { gismu, emoji, phone })
    }

    /// The compound-word rendering of the first sixteen bytes, with the
    /// phone-shaped tail appended unless `short` is set: the compound
    /// words are exactly those the word builder yields for the sampled
    /// pairs, joined by spaces.
    pub fn composite_lujvo(&self, short: bool, gismu_table: &Vec<String>) -> (r: Result<
        String,
        InternalErr,
    >)
        requires
            2 <= gismu_table@.len() <= 65536,
            chunk_width_spec(gismu_table@.len() as int) == 2,
            table_bounded(gismu_table.deep_view()),
        ensures
            r is Err ==> r matches Err(InternalErr::Generic(_)),
            r matches Ok(s) ==> self.bytes_view().len() >= 20 && exists|ws: Seq<Seq<char>>|
                #[trigger] combined_ok(
                    visual_pairs(
                        visual_words(
                            self.bytes_view().subrange(0, 16),
                            gismu_table.deep_view(),
                        ),
                    ),
                    ws,
                ) && s@ == (if short {
                    joined_spaced(ws)
                } else {
                    joined_spaced(ws) + seq![' ', '('] + phone_chars(
                        self.bytes_view().subrange(16, 20),
                    ) + seq![')']
                }),
    {
        let fp = self.as_bytes();
        if fp.len() < 20 {
            return Err(InternalErr::Generic("data too small for composite"));
        }
        let head = crate::handle::sub_bytes(&fp, 0, 16);
        let tail = crate::handle::sub_bytes(&fp, 16, 20);
        proof {
            assert(head@.len() == 16);
            assert(16nat % (chunk_width_spec(gismu_table@.len() as int) as nat) == 0);
        }
        let words = match lujvo_combined(&head, gismu_table) {
            Ok(w) => w,
            Err(_) => {
                return Err(InternalErr::Generic("no compound for this pair"));
            },
        };
        let ghost ws = words.deep_view();
        let joined = join_spaced(&words);
        if short {
            proof {
                assert(combined_ok(
                    visual_pairs(
                        visual_words(self.bytes_view().subrange(0, 16), gismu_table.deep_view()),
                    ),
                    ws,
                ));
            }
            Ok(joined)
        } else {
            let phone = match data_to_phone(&tail) {
                Ok(p) => p,
                Err(_) => {
                    return Err(InternalErr::Generic("wrong length for phone"));
                },
            };
            let mut s = joined;
            s.push(' ');
            s.push('(');
            s.append(phone.as_str());
            s.push(')');
            proof {
                assert(combined_ok(
                    visual_pairs(
                        visual_words(self.bytes_view().subrange(0, 16), gismu_table.deep_view()),
                    ),
                    ws,
                ));
                assert(s@ =~= joined_spaced(ws) + seq![' ', '('] + phone_chars(
                    self.bytes_view().subrange(16, 20),
                ) + seq![')']);
            }
            Ok(s)
        }
    }

    /// The compound-word rendering, falling back to the plain hex name
    /// when the compound rules refuse.
    pub fn composite_lujvo_or_else(&self, short: bool, gismu_table: &Vec<String>) -> (r: String)
        requires
            2 <= gismu_table@.len() <= 65536,
            chunk_width_spec(gismu_table@.len() as int) == 2,
            table_bounded(gismu_table.deep_view()),
    {
        match self.composite_lujvo(short, gismu_table) {
            Ok(s) => s,
            Err(_) => self.name(),
        }
    }

    /// The word, symbol and phone renderings joined into one line: the
    /// space-joined sampled words, the space-joined sampled symbols, and
    /// the parenthesized phone tail.
    pub fn composite(&self, gismu_table: &Vec<String>, emoji_table: &Vec<String>) -> (r: Result<
        String,
        InternalErr,
    >)
        requires
            2 <= gismu_table@.len() <= 65536,
            2 <= emoji_table@.len() <= 65536,
            chunk_width_spec(gismu_table@.len() as int) == 2,
            chunk_width_spec(emoji_table@.len() as int) == 2,
        ensures
            r is Err ==> r matches Err(InternalErr::Generic(_)),
            r matches Ok(s) ==> self.bytes_view().len() >= 20 && s@ == joined_spaced(
                visual_words(self.bytes_view().subrange(0, 8), gismu_table.deep_view()),
            ) + seq![' '] + joined_spaced(
                visual_words(self.bytes_view().subrange(8, 16), emoji_table.deep_view()),
            ) + seq![' ', '('] + phone_chars(self.bytes_view().subrange(16, 20)) + seq![')'],
    {
        let parts = match self.separate(gismu_table, emoji_table) {
            Ok(v) => v,
            Err(_) => {
                return Err(InternalErr::Generic("data too small for composite"));
            },
        };
        let mut s = join_spaced(&parts.gismu);
        s.push(' ');
        s.append(join_spaced(&parts.emoji).as_str());
        s.push(' ');
        s.push('(');
        s.append(parts.phone.as_str());
        s.push(')');
        proof {
            assert(s@ =~= joined_spaced(
                visual_words(self.bytes_view().subrange(0, 8), gismu_table.deep_view()),
            ) + seq![' '] + joined_spaced(
                visual_words(self.bytes_view().subrange(8, 16), emoji_table.deep_view()),
            ) + seq![' ', '('] + phone_chars(self.bytes_view().subrange(16, 20)) + seq![')']);
        }
        Ok(s)
    }
}

/// The words joined by single spaces.
pub open spec fn joined_spaced(ws: Seq<Seq<char>>) -> Seq<char>
    decreases ws.len(),
{
    if ws.len() == 0 {
        Seq::empty()
    } else if ws.len() == 1 {
        ws[0]
    } else {
        joined_spaced(ws.drop_last()) + seq![' '] + ws.last()
    }
}

/// Join words with single spaces.
pub fn join_spaced(ws: &Vec<String>) -> (r: String)
    ensures
        r@ == joined_spaced(ws.deep_view()),
{
    let mut out = String::new();
    let mut i: usize = 0;
    while i < ws.len()
        invariant
            i <= ws@.len(),
            out@ == joined_spaced(ws.deep_view().subrange(0, i as int)),
        decreases ws@.len() - i,
    {
        proof {
            assert(ws.deep_view()[i as int] == ws@[i as int]@);
        }
        if i > 0 {
            out.push(' ');
        }
        out.append(ws[i].as_str());
        proof {
            let pre = ws.deep_view().subrange(0, i as int);
            let cur = ws.deep_view().subrange(0, i + 1);
            assert(cur.drop_last() =~= pre);
            assert(cur.last() == ws.deep_view()[i as int]);
            if i == 0 {
                assert(out@ =~= joined_spaced(cur));
            } else {
                assert(out@ =~= joined_spaced(cur));
            }
        }
        i += 1;
    }
    proof {
        assert(ws.deep_view().subrange(0, ws@.len() as int) =~= ws.deep_view());
    }
    out
}

} // verus!
