use crate::rank_table::{insert_all, keys_unique, lemma_insert_all_update};
use crate::text::{decimal_value, is_decimal_digit};
use crate::tokenizer::{languages, languages_spec};
use vstd::prelude::*;
use vstd::string::StringExecFns;

verus! {

/// The character of the decimal digit `d`.
pub open spec fn digit_char(d: nat) -> char
    recommends
        d < 10,
{
    ((48 + d) as u32) as char
}

/// The string of the single decimal digit `d`.
pub fn digit_str(d: usize) -> (r: &'static str)
    requires
        d < 10,
    ensures
        r@ == seq![digit_char(d as nat)],
{
    match d {
        0 => {
            proof {
                reveal_strlit("0");
            }
            "0"
        },
        1 => {
            proof {
                reveal_strlit("1");
            }
            "1"
        },
        2 => {
            proof {
                reveal_strlit("2");
            }
            "2"
        },
        3 => {
            proof {
                reveal_strlit("3");
            }
            "3"
        },
        4 => {
            proof {
                reveal_strlit("4");
            }
            "4"
        },
        5 => {
            proof {
                reveal_strlit("5");
            }
            "5"
        },
        6 => {
            proof {
                reveal_strlit("6");
            }
            "6"
        },
        7 => {
            proof {
                reveal_strlit("7");
            }
            "7"
        },
        8 => {
            proof {
                reveal_strlit("8");
            }
            "8"
        },
        _ => {
            proof {
                reveal_strlit("9");
            }
            "9"
        },
    }
}

/// The decimal digits of `n`, without leading zeros.
pub open spec fn decimal_chars(n: nat) -> Seq<char>
    decreases n,
{
    if n < 10 {
        seq![digit_char(n)]
    } else {
        decimal_chars(n / 10).push(digit_char(n % 10))
    }
}

/// The decimal representation of `n`.
pub fn decimal_string(n: usize) -> (r: String)
    ensures
        r@ == decimal_chars(n as nat),
    decreases n,
{
    if n < 10 {
        String::from_str(digit_str(n))
    } else {
        let mut s = decimal_string(n / 10);
        s.append(digit_str(n % 10));
        s
    }
}

/// The character of the digit `d` is a decimal digit worth `d`.
proof fn lemma_digit_char_value(d: nat)
    requires
        d < 10,
    ensures
        digit_char(d) as nat == '0' as nat + d,
        is_decimal_digit(digit_char(d)),
{
    let u: u32 = (48 + d) as u32;
    assert(u == 48 + d);
    assert(u as char as u32 == u);
}

/// The decimal representation of `n` is a non-empty string of digits, without a leading
/// zero unless `n` is 0, whose value is `n`.
pub proof fn lemma_decimal_chars_value(n: nat)
    ensures
        decimal_chars(n).len() >= 1,
        forall|i: int| 0 <= i < decimal_chars(n).len() ==> is_decimal_digit(#[trigger] decimal_chars(n)[i]),
        decimal_value(decimal_chars(n)) == n,
        n >= 10 ==> decimal_chars(n)[0] != '0',
    decreases n,
{
    let d = decimal_chars(n);
    if n < 10 {
        lemma_digit_char_value(n);
        assert(d.drop_last() =~= Seq::<char>::empty());
        assert(d.last() == digit_char(n));
        assert(decimal_value(d.drop_last()) == 0);
    } else {
        lemma_digit_char_value(n % 10);
        lemma_decimal_chars_value(n / 10);
        let p = decimal_chars(n / 10);
        assert(d.drop_last() =~= p);
        assert(d.last() == digit_char(n % 10));
        assert(decimal_value(d) == decimal_value(p) * 10 + n % 10);
        assert(n == (n / 10) * 10 + n % 10);
        assert(d[0] == p[0]);
        assert forall|i: int| 0 <= i < d.len() implies is_decimal_digit(#[trigger] d[i]) by {
            if i < p.len() {
                assert(d[i] == p[i]);
            }
        }
        if n / 10 < 10 {
            assert(p[0] == digit_char(n / 10));
        }
    }
}

/// The text of the `i`-th timestamp: `i * 0.02` seconds with two decimals.
pub open spec fn timestamp_text(i: nat) -> Seq<char> {
    let hundredths = 2 * i;
    decimal_chars(hundredths / 100) + seq![
        '.',
        digit_char((hundredths % 100) / 10),
        digit_char(hundredths % 10),
    ]
}

/// The text of the `i`-th timestamp reads `i * 0.02` seconds: the whole seconds in
/// decimal, a point, then two digits whose value is the hundredths.
pub proof fn lemma_timestamp_text_value(i: nat)
    ensures
        ({
            let t = timestamp_text(i);
            &&& t.len() >= 4
            &&& t[t.len() - 3] == '.'
            &&& forall|k: int| 0 <= k < t.len() && k != t.len() - 3 ==> is_decimal_digit(#[trigger] t[k])
            &&& decimal_value(t.take(t.len() - 3)) * 100 + decimal_value(t.skip(t.len() - 2)) == 2 * i
        }),
{
    let h = 2 * i;
    let w = decimal_chars(h / 100);
    lemma_decimal_chars_value(h / 100);
    let t = timestamp_text(i);
    let d1 = digit_char((h % 100) / 10);
    let d2 = digit_char(h % 10);
    assert(t == w + seq!['.', d1, d2]);
    assert(t.take(t.len() - 3) =~= w);
    let last2 = t.skip(t.len() - 2);
    assert(last2 =~= seq![d1, d2]);
    assert(last2.drop_last() =~= seq![d1]);
    assert(seq![d1].drop_last() =~= Seq::<char>::empty());
    lemma_digit_char_value((h % 100) / 10);
    lemma_digit_char_value(h % 10);
    assert(decimal_value(seq![d1].drop_last()) == 0);
    assert(seq![d1].last() == d1);
    assert(decimal_value(seq![d1]) == (h % 100) / 10);
    assert(decimal_value(last2) == ((h % 100) / 10) * 10 + h % 10);
    assert(h % 100 == ((h % 100) / 10) * 10 + h % 10) by (nonlinear_arith);
    assert(h == (h / 100) * 100 + h % 100);
    assert forall|k: int| 0 <= k < t.len() && k != t.len() - 3 implies is_decimal_digit(#[trigger] t[k]) by {
        if k < w.len() {
            assert(t[k] == w[k]);
        }
    }
}

/// The number of timestamp tokens: 0.00 to 30.00 seconds in steps of 0.02.
pub const N_TIMESTAMPS: usize = 1501;

/// The names of the special tokens, in the order their ranks are given.
pub open spec fn special_token_names(num_languages: nat) -> Seq<Seq<char>> {
    let nl = if num_languages < languages_spec().len() {
        num_languages
    } else {
        languages_spec().len()
    };
    seq!["<|endoftext|>"@, "<|startoftranscript|>"@] + Seq::new(
        nl,
        |j: int| "<|"@ + languages_spec()[j].1 + "|>"@,
    ) + seq![
        "<|translate|>"@,
        "<|transcribe|>"@,
        "<|startofml|>"@,
        "<|startofprev|>"@,
        "<|nospeech|>"@,
        "<|notimestamps|>"@,
    ] + Seq::new(N_TIMESTAMPS as nat, |i: int| "<|"@ + timestamp_text(i as nat) + "|>"@)
}

/// The views of a list of named ranks.
pub open spec fn named_view(v: Seq<(String, u32)>) -> Seq<(Seq<char>, u32)> {
    v.map_values(|p: (String, u32)| (p.0@, p.1))
}

/// The rank of the `j`-th special token after a vocabulary of `n_vocab` tokens:
/// `n_vocab + 1 + j`, cut to 32 bits.
pub open spec fn special_rank(n_vocab: usize, j: int) -> u32 {
    vstd::wrapping::u32_specs::wrapping_add(n_vocab as u32, (j + 1) as u32)
}

/// The special tokens in order, each given the next rank after a vocabulary of
/// `n_vocab` tokens.
pub open spec fn special_tokens_spec(n_vocab: usize, num_languages: nat) -> Seq<(Seq<char>, u32)> {
    let names = special_token_names(num_languages);
    Seq::new(names.len(), |j: int| (names[j], special_rank(n_vocab, j)))
}

/// The rank after a vocabulary of `n_vocab` tokens at position `j` is `n_vocab + 1 + j`,
/// taken modulo 2^32.
proof fn lemma_special_rank_value(n_vocab: usize, j: int)
    requires
        0 <= j < 0xffff_ffff,
    ensures
        special_rank(n_vocab, j) as int == (n_vocab + 1 + j) % 0x1_0000_0000,
{
    let base: u32 = n_vocab as u32;
    assert(base as int == n_vocab as int % 0x1_0000_0000) by (bit_vector)
        requires
            base == n_vocab as u32,
    ;
    let off: u32 = (j + 1) as u32;
    assert(off as int == j + 1);
    vstd::arithmetic::div_mod::lemma_add_mod_noop(n_vocab as int, j + 1, 0x1_0000_0000);
    vstd::arithmetic::div_mod::lemma_small_mod((j + 1) as nat, 0x1_0000_0000);
    if base as int + off as int > u32::MAX {
        vstd::arithmetic::div_mod::lemma_fundamental_div_mod_converse(
            base as int + off as int,
            0x1_0000_0000,
            1,
            base as int + off as int - 0x1_0000_0000,
        );
    } else {
        vstd::arithmetic::div_mod::lemma_small_mod((base as int + off as int) as nat, 0x1_0000_0000);
    }
}

/// The names of the special tokens in order: end of text, start of transcript, one per
/// language for the first `min(num_languages, 100)` languages, the six task and control
/// tokens, then the 1501 timestamps.
proof fn lemma_special_name_layout(num_languages: nat)
    ensures
        ({
            let names = special_token_names(num_languages);
            let l: int = if num_languages < 100 {
                num_languages as int
            } else {
                100
            };
            &&& names.len() == 2 + l + 6 + 1501
            &&& names[0] == "<|endoftext|>"@
            &&& names[1] == "<|startoftranscript|>"@
            &&& forall|j: int|
                0 <= j < l ==> names[2 + j] == "<|"@ + (#[trigger] languages_spec()[j]).1 + "|>"@
            &&& names[2 + l] == "<|translate|>"@
            &&& names[3 + l] == "<|transcribe|>"@
            &&& names[4 + l] == "<|startofml|>"@
            &&& names[5 + l] == "<|startofprev|>"@
            &&& names[6 + l] == "<|nospeech|>"@
            &&& names[7 + l] == "<|notimestamps|>"@
            &&& forall|i: int|
                0 <= i < 1501 ==> names[8 + l + i] == "<|"@ + #[trigger] timestamp_text(i as nat) + "|>"@
        }),
{
    let names = special_token_names(num_languages);
    lemma_languages_count();
    let l: int = if num_languages < 100 {
        num_languages as int
    } else {
        100
    };
    let head = seq!["<|endoftext|>"@, "<|startoftranscript|>"@];
    let langs = Seq::new(l as nat, |j: int| "<|"@ + languages_spec()[j].1 + "|>"@);
    let tasks = seq![
        "<|translate|>"@,
        "<|transcribe|>"@,
        "<|startofml|>"@,
        "<|startofprev|>"@,
        "<|nospeech|>"@,
        "<|notimestamps|>"@,
    ];
    let stamps = Seq::new(N_TIMESTAMPS as nat, |i: int| "<|"@ + timestamp_text(i as nat) + "|>"@);
    assert(names == head + langs + tasks + stamps);
    assert forall|j: int| 0 <= j < l implies names[2 + j] == "<|"@ + (#[trigger] languages_spec()[j]).1
        + "|>"@ by {
        assert(names[2 + j] == langs[j]);
    }
    assert(names[2 + l] == tasks[0]);
    assert(names[3 + l] == tasks[1]);
    assert(names[4 + l] == tasks[2]);
    assert(names[5 + l] == tasks[3]);
    assert(names[6 + l] == tasks[4]);
    assert(names[7 + l] == tasks[5]);
    assert forall|i: int| 0 <= i < 1501 implies names[8 + l + i] == "<|"@ + #[trigger] timestamp_text(
        i as nat,
    ) + "|>"@ by {
        assert(names[8 + l + i] == stamps[i]);
    }
}

/// There are 100 languages.
proof fn lemma_languages_count()
    ensures
        languages_spec().len() == 100,
{
}

/// The special tokens come in a fixed order: end of text, start of transcript, one token
/// per language for the first `min(num_languages, 100)` languages, then translate,
/// transcribe, start of ML, start of previous, no speech and no timestamps, then the 1501
/// timestamps. The token at position `j` has rank `n_vocab + 1 + j`, taken modulo 2^32.
pub proof fn lemma_special_token_layout(n_vocab: usize, num_languages: nat)
    ensures
        ({
            let t = special_tokens_spec(n_vocab, num_languages);
            let l: int = if num_languages < 100 {
                num_languages as int
            } else {
                100
            };
            &&& t.len() == 2 + l + 6 + 1501
            &&& t[0].0 == "<|endoftext|>"@
            &&& t[1].0 == "<|startoftranscript|>"@
            &&& forall|j: int|
                0 <= j < l ==> t[2 + j].0 == "<|"@ + (#[trigger] languages_spec()[j]).1 + "|>"@
            &&& t[2 + l].0 == "<|translate|>"@
            &&& t[3 + l].0 == "<|transcribe|>"@
            &&& t[4 + l].0 == "<|startofml|>"@
            &&& t[5 + l].0 == "<|startofprev|>"@
            &&& t[6 + l].0 == "<|nospeech|>"@
            &&& t[7 + l].0 == "<|notimestamps|>"@
            &&& forall|i: int|
                0 <= i < 1501 ==> t[8 + l + i].0 == "<|"@ + #[trigger] timestamp_text(i as nat) + "|>"@
            &&& forall|j: int|
                0 <= j < t.len() ==> (#[trigger] t[j]).1 as int == (n_vocab + 1 + j) % 0x1_0000_0000
        }),
{
    let t = special_tokens_spec(n_vocab, num_languages);
    lemma_special_name_layout(num_languages);
    assert forall|j: int| 0 <= j < t.len() implies (#[trigger] t[j]).1 as int == (n_vocab + 1 + j)
        % 0x1_0000_0000 by {
        lemma_special_rank_value(n_vocab, j);
    }
}

/// `<|` + `inner` + `|>`.
fn bracketed(inner: &str) -> (r: String)
    ensures
        r@ == "<|"@ + inner@ + "|>"@,
{
    let mut t = String::from_str("<|");
    t.append(inner);
    t.append("|>");
    t
}

/// The name of the `i`-th timestamp token.
fn timestamp_token(i: usize) -> (r: String)
    requires
        i < N_TIMESTAMPS,
    ensures
        r@ == "<|"@ + timestamp_text(i as nat) + "|>"@,
{
    let hundredths = 2 * i;
    let mut t = String::from_str("<|");
    let whole = decimal_string(hundredths / 100);
    t.append(whole.as_str());
    t.append(".");
    t.append(digit_str((hundredths % 100) / 10));
    t.append(digit_str(hundredths % 10));
    t.append("|>");
    proof {
        reveal_strlit(".");
    }
    assert(t@ =~= "<|"@ + timestamp_text(i as nat) + "|>"@);
    t
}

/// The names of the special tokens, in rank order.
pub fn special_token_name_list(num_languages: usize) -> (r: Vec<String>)
    ensures
        r@.map_values(|s: String| s@) == special_token_names(num_languages as nat),
{
    let ghost names = special_token_names(num_languages as nat);
    let langs = languages();
    let nl: usize = if num_languages < langs.len() {
        num_languages
    } else {
        langs.len()
    };
    let ghost lang_views = langs@.map_values(|p: (&str, &str)| (p.0@, p.1@));
    assert(lang_views.len() == langs@.len());
    let mut out: Vec<String> = Vec::new();
    out.push(String::from_str("<|endoftext|>"));
    out.push(String::from_str("<|startoftranscript|>"));
    let mut j: usize = 0;
    while j < nl
        invariant
            j <= nl,
            nl <= langs@.len(),
            lang_views == languages_spec(),
            lang_views == langs@.map_values(|p: (&str, &str)| (p.0@, p.1@)),
            out@.map_values(|s: String| s@) =~= seq!["<|endoftext|>"@, "<|startoftranscript|>"@]
                + Seq::new(j as nat, |k: int| "<|"@ + languages_spec()[k].1 + "|>"@),
        decreases nl - j,
    {
        let name = langs[j].1;
        assert(name@ == languages_spec()[j as int].1);
        let ghost before = out@.map_values(|s: String| s@);
        let t = bracketed(name);
        let ghost tv = t@;
        out.push(t);
        assert(out@.map_values(|s: String| s@) =~= before.push(tv));
        assert(Seq::new((j + 1) as nat, |k: int| "<|"@ + languages_spec()[k].1 + "|>"@) =~= Seq::new(
            j as nat,
            |k: int| "<|"@ + languages_spec()[k].1 + "|>"@,
        ).push(tv));
        j = j + 1;
    }
    out.push(String::from_str("<|translate|>"));
    out.push(String::from_str("<|transcribe|>"));
    out.push(String::from_str("<|startofml|>"));
    out.push(String::from_str("<|startofprev|>"));
    out.push(String::from_str("<|nospeech|>"));
    out.push(String::from_str("<|notimestamps|>"));
    let ghost head = out@.map_values(|s: String| s@);
    let mut i: usize = 0;
    while i < N_TIMESTAMPS
        invariant
            i <= N_TIMESTAMPS,
            out@.map_values(|s: String| s@) =~= head + Seq::new(
                i as nat,
                |k: int| "<|"@ + timestamp_text(k as nat) + "|>"@,
            ),
        decreases N_TIMESTAMPS - i,
    {
        let ghost before = out@.map_values(|s: String| s@);
        let t = timestamp_token(i);
        let ghost tv = t@;
        out.push(t);
        assert(out@.map_values(|s: String| s@) =~= before.push(tv));
        assert(Seq::new((i + 1) as nat, |k: int| "<|"@ + timestamp_text(k as nat) + "|>"@) =~= Seq::new(
            i as nat,
            |k: int| "<|"@ + timestamp_text(k as nat) + "|>"@,
        ).push(tv));
        i = i + 1;
    }
    assert(out@.map_values(|s: String| s@) =~= names);
    out
}

/// The special tokens in order, with ranks following a vocabulary of `n_vocab` tokens.
pub fn special_token_list(n_vocab: usize, num_languages: usize) -> (r: Vec<(String, u32)>)
    ensures
        named_view(r@) == special_tokens_spec(n_vocab, num_languages as nat),
{
    let names = special_token_name_list(num_languages);
    let ghost spec = special_tokens_spec(n_vocab, num_languages as nat);
    assert(names@.len() <= 2 + 100 + 6 + N_TIMESTAMPS);
    let base: u32 = n_vocab as u32;
    let mut out: Vec<(String, u32)> = Vec::new();
    let mut j: usize = 0;
    while j < names.len()
        invariant
            j <= names@.len(),
            names@.len() <= 2 + 100 + 6 + N_TIMESTAMPS,
            base == n_vocab as u32,
            names@.map_values(|s: String| s@) == special_token_names(num_languages as nat),
            spec == special_tokens_spec(n_vocab, num_languages as nat),
            named_view(out@) =~= spec.take(j as int),
        decreases names@.len() - j,
    {
        let rank = base.wrapping_add((j + 1) as u32);
        let name = names[j].clone();
        let ghost before = named_view(out@);
        assert(name@ == special_token_names(num_languages as nat)[j as int]);
        assert(spec[j as int] == (name@, rank));
        out.push((name, rank));
        assert(named_view(out@) =~= before.push(spec[j as int]));
        assert(spec.take(j + 1) =~= spec.take(j as int).push(spec[j as int]));
        j = j + 1;
    }
    assert(spec.take(j as int) =~= spec);
    out
}

/// Keeps, for each name, only its last rank; names stay in the order of their first
/// occurrence.
pub fn keep_last_rank(pairs: &Vec<(String, u32)>) -> (r: Vec<(String, u32)>)
    ensures
        keys_unique(named_view(r@)),
        insert_all(named_view(r@)) == insert_all(named_view(pairs@)),
{
    let mut out: Vec<(String, u32)> = Vec::new();
    let mut i: usize = 0;
    assert(named_view(pairs@).take(0) =~= Seq::<(Seq<char>, u32)>::empty());
    assert(named_view(out@) =~= Seq::<(Seq<char>, u32)>::empty());
    while i < pairs.len()
        invariant
            i <= pairs@.len(),
            keys_unique(named_view(out@)),
            insert_all(named_view(out@)) == insert_all(named_view(pairs@).take(i as int)),
        decreases pairs@.len() - i,
    {
        let name = pairs[i].0.clone();
        let rank = pairs[i].1;
        let ghost prev = named_view(out@);
        assert(named_view(pairs@).take(i + 1).drop_last() =~= named_view(pairs@).take(i as int));
        assert(named_view(pairs@).take(i + 1).last() == (name@, rank));
        let mut found: Option<usize> = None;
        let mut k: usize = 0;
        while k < out.len()
            invariant
                k <= out@.len(),
                prev == named_view(out@),
                found matches Some(idx) ==> idx < out@.len() && prev[idx as int].0 == name@,
                found is None ==> forall|m: int| 0 <= m < k ==> #[trigger] prev[m].0 != name@,
            decreases out@.len() - k,
        {
            assert(prev[k as int].0 == out@[k as int].0@);
            if found.is_none() && out[k].0 == name {
                found = Some(k);
            }
            k = k + 1;
        }
        match found {
            Some(idx) => {
                assert(prev[idx as int].0 == name@);
                proof {
                    lemma_insert_all_update(prev, idx as int, rank);
                }
                out.set(idx, (name, rank));
                assert(named_view(out@) =~= prev.update(idx as int, (prev[idx as int].0, rank)));
            },
            None => {
                out.push((name, rank));
                assert(named_view(out@) =~= prev.push((name@, rank)));
                assert(named_view(out@).drop_last() =~= prev);
                assert forall|a: int, b: int| 0 <= a < b < named_view(out@).len() implies
                    #[trigger] named_view(out@)[a].0 != #[trigger] named_view(out@)[b].0 by {
                    if b == prev.len() {
                        assert(prev[a].0 != name@);
                    } else {
                        assert(named_view(out@)[a] == prev[a] && named_view(out@)[b] == prev[b]);
                    }
                }
            },
        }
        i = i + 1;
    }
    assert(named_view(pairs@).take(i as int) =~= named_view(pairs@));
    out
}

} // verus!
