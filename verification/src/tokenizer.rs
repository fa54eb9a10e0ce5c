use crate::rank_table::{insert_all, keys_unique, map_injective, RankTable};
use crate::special::{
    keep_last_rank, lemma_special_token_layout, named_view, special_token_list, special_tokens_spec,
};
use crate::text::{chars_of, encode_utf8_chars, parse_u32, parse_u32_spec, split_whitespace, words};
use vstd::prelude::*;
use vstd::utf8::encode_utf8;

verus! {

#[verifier::external_type_specification]
#[verifier::external_body]
pub struct ExDecodeError(base64::DecodeError);

#[verifier::external_type_specification]
#[verifier::external_body]
pub struct ExAnyhowError(anyhow::Error);

#[verifier::external_type_specification]
#[verifier::external_body]
pub struct ExCoreBPE(tiktoken_rs::CoreBPE);

/// What base64 decoding with the standard alphabet and canonical padding gives for `input`,
/// or `None` where it reports an error.
pub uninterp spec fn base64_standard_decode(input: Seq<u8>) -> Option<Seq<u8>>;

/// Calls `base64::Engine::decode` of `base64::engine::general_purpose::STANDARD`
/// (the engine behind `base64::prelude::BASE64_STANDARD`). The contract only says that
/// the outcome is [`base64_standard_decode`] of the input bytes: the decoding itself is
/// not stated.
#[verifier::external_body]
fn decode_base64_standard(input: &[u8]) -> (r: Result<Vec<u8>, base64::DecodeError>)
    ensures
        match r {
            Ok(v) => base64_standard_decode(input@) == Some(v@),
            Err(_) => base64_standard_decode(input@).is_none(),
        },
{
    base64::Engine::decode(&base64::engine::general_purpose::STANDARD, input)
}

/// Why a vocabulary could not be turned into an encoding.
#[derive(Debug)]
pub enum TokenizerError {
    /// A non-empty line does not consist of exactly two whitespace-separated fields.
    InvalidLineFormat,
    /// The token field of a line is not valid standard base64.
    InvalidBase64(base64::DecodeError),
    /// The rank field of a line is not a decimal `u32`.
    InvalidRank,
    /// Two tokens of the vocabulary share a rank.
    DuplicateRank,
    /// The BPE encoder could not be built from the tables.
    Encoding(anyhow::Error),
    /// Tokens could not be decoded to text.
    Decoding(anyhow::Error),
}

/// What one line of a `.tiktoken` vocabulary file stands for.
pub enum VocabLine {
    /// An empty line, which is skipped.
    Blank,
    /// A token's bytes and its rank.
    Entry(Seq<u8>, u32),
    /// A line without exactly two whitespace-separated fields.
    Malformed,
    /// A line whose first field is not standard base64.
    BadBase64,
    /// A line whose second field is not a decimal `u32`.
    BadRank,
}

/// The meaning of `line`: two whitespace-separated fields, a base64 token and a decimal rank.
pub open spec fn vocab_line(line: Seq<char>) -> VocabLine {
    let parts = words(line);
    if line.len() == 0 {
        VocabLine::Blank
    } else if parts.len() != 2 {
        VocabLine::Malformed
    } else {
        match base64_standard_decode(encode_utf8(parts[0])) {
            None => VocabLine::BadBase64,
            Some(bytes) => match parse_u32_spec(parts[1]) {
                None => VocabLine::BadRank,
                Some(rank) => VocabLine::Entry(bytes, rank),
            },
        }
    }
}

/// `e` is the error that reports a line of kind `k`.
pub open spec fn reports(e: TokenizerError, k: VocabLine) -> bool {
    match k {
        VocabLine::Malformed => e is InvalidLineFormat,
        VocabLine::BadBase64 => e is InvalidBase64,
        VocabLine::BadRank => e is InvalidRank,
        _ => false,
    }
}

/// Turns the decoded token field and the rank field of a line into a vocabulary entry.
pub fn vocab_entry(decoded: Result<Vec<u8>, base64::DecodeError>, rank_text: &[char]) -> (r: Result<
    (Vec<u8>, u32),
    TokenizerError,
>)
    ensures
        match decoded {
            Err(e) => r == Err::<(Vec<u8>, u32), TokenizerError>(TokenizerError::InvalidBase64(e)),
            Ok(bytes) => match parse_u32_spec(rank_text@) {
                None => r is Err && r->Err_0 is InvalidRank,
                Some(rank) => r == Ok::<(Vec<u8>, u32), TokenizerError>((bytes, rank)),
            },
        },
{
    match decoded {
        Err(e) => Err(TokenizerError::InvalidBase64(e)),
        Ok(bytes) => match parse_u32(rank_text) {
            None => Err(TokenizerError::InvalidRank),
            Some(rank) => Ok((bytes, rank)),
        },
    }
}

/// Parses one line of a `.tiktoken` vocabulary file: `None` for an empty line, else the
/// token's bytes and rank.
pub fn parse_vocab_line(line: &str) -> (r: Result<Option<(Vec<u8>, u32)>, TokenizerError>)
    ensures
        match vocab_line(line@) {
            VocabLine::Blank => r == Ok::<Option<(Vec<u8>, u32)>, TokenizerError>(None),
            VocabLine::Entry(bytes, rank) => r is Ok && r->Ok_0 is Some && r->Ok_0->Some_0.0@
                == bytes && r->Ok_0->Some_0.1 == rank,
            k => r is Err && reports(r->Err_0, k),
        },
{
    let chars = chars_of(line);
    if chars.len() == 0 {
        return Ok(None);
    }
    let parts = split_whitespace(chars.as_slice());
    assert(parts@.len() == words(line@).len());
    if parts.len() != 2 {
        return Err(TokenizerError::InvalidLineFormat);
    }
    assert(parts@[0]@ == words(line@)[0]);
    assert(parts@[1]@ == words(line@)[1]);
    let token_bytes = encode_utf8_chars(parts[0].as_slice());
    let decoded = decode_base64_standard(token_bytes.as_slice());
    match vocab_entry(decoded, parts[1].as_slice()) {
        Ok(entry) => Ok(Some(entry)),
        Err(e) => Err(e),
    }
}

/// The characters of each line.
pub open spec fn line_views(lines: Seq<String>) -> Seq<Seq<char>> {
    lines.map_values(|l: String| l@)
}

/// The vocabulary that `lines` describe: each entry inserted in order, a later rank for
/// the same token replacing an earlier one; or the kind of the first line that is not
/// blank and not an entry.
pub open spec fn vocabulary(lines: Seq<Seq<char>>) -> Result<Map<Seq<u8>, u32>, VocabLine>
    decreases lines.len(),
{
    if lines.len() == 0 {
        Ok(Map::empty())
    } else {
        match vocabulary(lines.drop_last()) {
            Err(k) => Err(k),
            Ok(m) => match vocab_line(lines.last()) {
                VocabLine::Blank => Ok(m),
                VocabLine::Entry(bytes, rank) => Ok(m.insert(bytes, rank)),
                k => Err(k),
            },
        }
    }
}

/// Reads the vocabulary described by the lines of a `.tiktoken` file.
pub fn build_vocabulary(lines: &Vec<String>) -> (r: Result<RankTable, TokenizerError>)
    ensures
        match r {
            Ok(t) => t.wf() && vocabulary(line_views(lines@)) == Ok::<Map<Seq<u8>, u32>, VocabLine>(
                t.as_map(),
            ),
            Err(e) => vocabulary(line_views(lines@)) is Err && reports(
                e,
                vocabulary(line_views(lines@))->Err_0,
            ),
        },
{
    let mut table = RankTable::new();
    let mut i: usize = 0;
    while i < lines.len()
        invariant
            i <= lines.len(),
            table.wf(),
            vocabulary(line_views(lines@).take(i as int)) == Ok::<Map<Seq<u8>, u32>, VocabLine>(
                table.as_map(),
            ),
        decreases lines.len() - i,
    {
        let ghost prefix = line_views(lines@).take(i as int);
        let ghost next = line_views(lines@).take(i + 1);
        assert(next.drop_last() =~= prefix);
        assert(next.last() == lines@[i as int]@);
        match parse_vocab_line(lines[i].as_str()) {
            Ok(None) => {},
            Ok(Some((bytes, rank))) => {
                table.insert(bytes, rank);
            },
            Err(e) => {
                proof {
                    lemma_vocabulary_error_persists(line_views(lines@), i + 1);
                }
                return Err(e);
            },
        }
        i = i + 1;
    }
    assert(line_views(lines@).take(i as int) =~= line_views(lines@));
    Ok(table)
}

/// Once a prefix of the lines fails, so do all the lines, with the same kind.
pub proof fn lemma_vocabulary_error_persists(lines: Seq<Seq<char>>, n: int)
    requires
        0 <= n <= lines.len(),
        vocabulary(lines.take(n)) is Err,
    ensures
        vocabulary(lines) == vocabulary(lines.take(n)),
    decreases lines.len() - n,
{
    if n < lines.len() {
        assert(lines.take(n + 1).drop_last() =~= lines.take(n));
        lemma_vocabulary_error_persists(lines, n + 1);
    } else {
        assert(lines.take(n) =~= lines);
    }
}

/// The languages of the tokenizer as (code, name), in token order.
pub open spec fn languages_spec() -> Seq<(Seq<char>, Seq<char>)> {
    seq![
        ("en"@, "english"@),
        ("zh"@, "chinese"@),
        ("de"@, "german"@),
        ("es"@, "spanish"@),
        ("ru"@, "russian"@),
        ("ko"@, "korean"@),
        ("fr"@, "french"@),
        ("ja"@, "japanese"@),
        ("pt"@, "portuguese"@),
        ("tr"@, "turkish"@),
        ("pl"@, "polish"@),
        ("ca"@, "catalan"@),
        ("nl"@, "dutch"@),
        ("ar"@, "arabic"@),
        ("sv"@, "swedish"@),
        ("it"@, "italian"@),
        ("id"@, "indonesian"@),
        ("hi"@, "hindi"@),
        ("fi"@, "finnish"@),
        ("vi"@, "vietnamese"@),
        ("he"@, "hebrew"@),
        ("uk"@, "ukrainian"@),
        ("el"@, "greek"@),
        ("ms"@, "malay"@),
        ("cs"@, "czech"@),
        ("ro"@, "romanian"@),
        ("da"@, "danish"@),
        ("hu"@, "hungarian"@),
        ("ta"@, "tamil"@),
        ("no"@, "norwegian"@),
        ("th"@, "thai"@),
        ("ur"@, "urdu"@),
        ("hr"@, "croatian"@),
        ("bg"@, "bulgarian"@),
        ("lt"@, "lithuanian"@),
        ("la"@, "latin"@),
        ("mi"@, "maori"@),
        ("ml"@, "malayalam"@),
        ("cy"@, "welsh"@),
        ("sk"@, "slovak"@),
        ("te"@, "telugu"@),
        ("fa"@, "persian"@),
        ("lv"@, "latvian"@),
        ("bn"@, "bengali"@),
        ("sr"@, "serbian"@),
        ("az"@, "azerbaijani"@),
        ("sl"@, "slovenian"@),
        ("kn"@, "kannada"@),
        ("et"@, "estonian"@),
        ("mk"@, "macedonian"@),
        ("br"@, "breton"@),
        ("eu"@, "basque"@),
        ("is"@, "icelandic"@),
        ("hy"@, "armenian"@),
        ("ne"@, "nepali"@),
        ("mn"@, "mongolian"@),
        ("bs"@, "bosnian"@),
        ("kk"@, "kazakh"@),
        ("sq"@, "albanian"@),
        ("sw"@, "swahili"@),
        ("gl"@, "galician"@),
        ("mr"@, "marathi"@),
        ("pa"@, "punjabi"@),
        ("si"@, "sinhala"@),
        ("km"@, "khmer"@),
        ("sn"@, "shona"@),
        ("yo"@, "yoruba"@),
        ("so"@, "somali"@),
        ("af"@, "afrikaans"@),
        ("oc"@, "occitan"@),
        ("ka"@, "georgian"@),
        ("be"@, "belarusian"@),
        ("tg"@, "tajik"@),
        ("sd"@, "sindhi"@),
        ("gu"@, "gujarati"@),
        ("am"@, "amharic"@),
        ("yi"@, "yiddish"@),
        ("lo"@, "lao"@),
        ("uz"@, "uzbek"@),
        ("fo"@, "faroese"@),
        ("ht"@, "haitian creole"@),
        ("ps"@, "pashto"@),
        ("tk"@, "turkmen"@),
        ("nn"@, "nynorsk"@),
        ("mt"@, "maltese"@),
        ("sa"@, "sanskrit"@),
        ("lb"@, "luxembourgish"@),
        ("my"@, "myanmar"@),
        ("bo"@, "tibetan"@),
        ("tl"@, "tagalog"@),
        ("mg"@, "malagasy"@),
        ("as"@, "assamese"@),
        ("tt"@, "tatar"@),
        ("haw"@, "hawaiian"@),
        ("ln"@, "lingala"@),
        ("ha"@, "hausa"@),
        ("ba"@, "bashkir"@),
        ("jw"@, "javanese"@),
        ("su"@, "sundanese"@),
        ("yue"@, "cantonese"@),
    ]
}

/// The languages of the tokenizer as (code, name), in token order.
pub fn languages() -> (r: Vec<(&'static str, &'static str)>)
    ensures
        r@.map_values(|p: (&str, &str)| (p.0@, p.1@)) == languages_spec(),
{
    let v = vec![
        ("en", "english"),
        ("zh", "chinese"),
        ("de", "german"),
        ("es", "spanish"),
        ("ru", "russian"),
        ("ko", "korean"),
        ("fr", "french"),
        ("ja", "japanese"),
        ("pt", "portuguese"),
        ("tr", "turkish"),
        ("pl", "polish"),
        ("ca", "catalan"),
        ("nl", "dutch"),
        ("ar", "arabic"),
        ("sv", "swedish"),
        ("it", "italian"),
        ("id", "indonesian"),
        ("hi", "hindi"),
        ("fi", "finnish"),
        ("vi", "vietnamese"),
        ("he", "hebrew"),
        ("uk", "ukrainian"),
        ("el", "greek"),
        ("ms", "malay"),
        ("cs", "czech"),
        ("ro", "romanian"),
        ("da", "danish"),
        ("hu", "hungarian"),
        ("ta", "tamil"),
        ("no", "norwegian"),
        ("th", "thai"),
        ("ur", "urdu"),
        ("hr", "croatian"),
        ("bg", "bulgarian"),
        ("lt", "lithuanian"),
        ("la", "latin"),
        ("mi", "maori"),
        ("ml", "malayalam"),
        ("cy", "welsh"),
        ("sk", "slovak"),
        ("te", "telugu"),
        ("fa", "persian"),
        ("lv", "latvian"),
        ("bn", "bengali"),
        ("sr", "serbian"),
        ("az", "azerbaijani"),
        ("sl", "slovenian"),
        ("kn", "kannada"),
        ("et", "estonian"),
        ("mk", "macedonian"),
        ("br", "breton"),
        ("eu", "basque"),
        ("is", "icelandic"),
        ("hy", "armenian"),
        ("ne", "nepali"),
        ("mn", "mongolian"),
        ("bs", "bosnian"),
        ("kk", "kazakh"),
        ("sq", "albanian"),
        ("sw", "swahili"),
        ("gl", "galician"),
        ("mr", "marathi"),
        ("pa", "punjabi"),
        ("si", "sinhala"),
        ("km", "khmer"),
        ("sn", "shona"),
        ("yo", "yoruba"),
        ("so", "somali"),
        ("af", "afrikaans"),
        ("oc", "occitan"),
        ("ka", "georgian"),
        ("be", "belarusian"),
        ("tg", "tajik"),
        ("sd", "sindhi"),
        ("gu", "gujarati"),
        ("am", "amharic"),
        ("yi", "yiddish"),
        ("lo", "lao"),
        ("uz", "uzbek"),
        ("fo", "faroese"),
        ("ht", "haitian creole"),
        ("ps", "pashto"),
        ("tk", "turkmen"),
        ("nn", "nynorsk"),
        ("mt", "maltese"),
        ("sa", "sanskrit"),
        ("lb", "luxembourgish"),
        ("my", "myanmar"),
        ("bo", "tibetan"),
        ("tl", "tagalog"),
        ("mg", "malagasy"),
        ("as", "assamese"),
        ("tt", "tatar"),
        ("haw", "hawaiian"),
        ("ln", "lingala"),
        ("ha", "hausa"),
        ("ba", "bashkir"),
        ("jw", "javanese"),
        ("su", "sundanese"),
        ("yue", "cantonese"),
    ];
    assert(v@.map_values(|p: (&str, &str)| (p.0@, p.1@)) =~= languages_spec());
    v
}

/// The views of a list of byte-string ranks.
pub open spec fn bytes_view(v: Seq<(Vec<u8>, u32)>) -> Seq<(Seq<u8>, u32)> {
    v.map_values(|p: (Vec<u8>, u32)| (p.0@, p.1))
}

/// Whether `tiktoken_rs::CoreBPE::new` accepts an encoder, a special-token encoder and a
/// split pattern (it compiles the pattern and an alternation of the special tokens as
/// regular expressions).
pub uninterp spec fn bpe_accepts(encoder: Map<Seq<u8>, u32>, specials: Map<Seq<char>, u32>, pattern: Seq<char>) -> bool;

/// The `encoder` table of a `tiktoken_rs::CoreBPE`: the rank of each ordinary token's
/// bytes.
pub uninterp spec fn bpe_encoder(bpe: tiktoken_rs::CoreBPE) -> Map<Seq<u8>, u32>;

/// The `special_tokens_encoder` table of a `tiktoken_rs::CoreBPE`: the rank of each
/// special token's name.
pub uninterp spec fn bpe_special_encoder(bpe: tiktoken_rs::CoreBPE) -> Map<Seq<char>, u32>;

/// The `decoder` table of a `tiktoken_rs::CoreBPE`: the bytes of each ordinary token,
/// by rank.
pub uninterp spec fn bpe_decoder(bpe: tiktoken_rs::CoreBPE) -> Map<u32, Seq<u8>>;

/// The `special_tokens_decoder` table of a `tiktoken_rs::CoreBPE`: the bytes of each
/// special token, by rank.
pub uninterp spec fn bpe_special_decoder(bpe: tiktoken_rs::CoreBPE) -> Map<u32, Seq<u8>>;

/// `decoder` maps exactly the ranks of `specials` each to the UTF-8 bytes of a name
/// that has that rank.
pub open spec fn decodes_specials(specials: Map<Seq<char>, u32>, decoder: Map<u32, Seq<u8>>) -> bool {
    &&& decoder.dom() == specials.values()
    &&& forall|t: u32|
        #[trigger] decoder.contains_key(t) ==> exists|name: Seq<char>|
            specials.contains_pair(name, t) && decoder[t] == encode_utf8(name)
}

/// Calls `tiktoken_rs::CoreBPE::new` with the two tables collected into `FxHashMap`s.
/// The keys are distinct, so collecting loses nothing; the ranks of `encoder` are
/// distinct, which `CoreBPE::new` asserts. The contract says that whether it succeeds is
/// [`bpe_accepts`] of the tables and pattern, and that the encoder built holds the two
/// tables as its encoding tables, decodes each rank of `encoder` to its bytes and each
/// special rank to the UTF-8 bytes of a special name with that rank (which one, where
/// two share a rank, is left open: it depends on the order in which a hash map is
/// walked). Nothing is stated of the regular expressions it compiles.
#[verifier::external_body]
fn core_bpe_new(encoder: Vec<(Vec<u8>, u32)>, specials: Vec<(String, u32)>, pattern: &str) -> (r:
    Result<tiktoken_rs::CoreBPE, anyhow::Error>)
    requires
        keys_unique(bytes_view(encoder@)),
        map_injective(insert_all(bytes_view(encoder@))),
        keys_unique(named_view(specials@)),
    ensures
        r is Ok == bpe_accepts(
            insert_all(bytes_view(encoder@)),
            insert_all(named_view(specials@)),
            pattern@,
        ),
        r matches Ok(bpe) ==> bpe_encoder(bpe) == insert_all(bytes_view(encoder@)),
        r matches Ok(bpe) ==> bpe_special_encoder(bpe) == insert_all(named_view(specials@)),
        r matches Ok(bpe) ==> bpe_decoder(bpe) == insert_all(bytes_view(encoder@)).invert(),
        r matches Ok(bpe) ==> decodes_specials(
            insert_all(named_view(specials@)),
            bpe_special_decoder(bpe),
        ),
{
    let encoder: rustc_hash::FxHashMap<Vec<u8>, u32> = encoder.into_iter().collect();
    let specials: rustc_hash::FxHashMap<String, u32> = specials.into_iter().collect();
    tiktoken_rs::CoreBPE::new(encoder, specials, pattern)
}

/// The pre-tokenization pattern of the GPT-2 encoding.
pub fn token_pattern() -> (r: &'static str)
    ensures
        r@ == token_pattern_spec(),
{
    "(?i:'s|'t|'re|'ve|'m|'ll|'d)|[^\\r\\n\\p{L}\\p{N}]?\\p{L}+|\\p{N}{1,3}|[^\\s\\p{L}\\p{N}]+[\\r\\n]*|\\s*[\\r\\n]+|\\s+(?!\\S)|\\s+"
}

/// The text of [`token_pattern`].
pub open spec fn token_pattern_spec() -> Seq<char> {
    "(?i:'s|'t|'re|'ve|'m|'ll|'d)|[^\\r\\n\\p{L}\\p{N}]?\\p{L}+|\\p{N}{1,3}|[^\\s\\p{L}\\p{N}]+[\\r\\n]*|\\s*[\\r\\n]+|\\s+(?!\\S)|\\s+"@
}

/// The number of language tokens asked for, one by default.
pub open spec fn languages_asked(num_languages: Option<usize>) -> nat {
    match num_languages {
        Some(n) => n as nat,
        None => 1,
    }
}

/// With no language count given, one language is asked for: the special tokens are
/// those for a count of one, `<|english|>` is the only language token, and
/// `<|transcribe|>` has rank `n_vocab + 5` (modulo 2^32).
pub proof fn lemma_default_language_count(n_vocab: usize)
    ensures
        special_tokens_spec(n_vocab, languages_asked(None)) == special_tokens_spec(n_vocab, 1),
        special_tokens_spec(n_vocab, languages_asked(None))[2].0 == "<|english|>"@,
        special_tokens_spec(n_vocab, languages_asked(None))[3].0 == "<|translate|>"@,
        special_tokens_spec(n_vocab, languages_asked(None))[4].0 == "<|transcribe|>"@,
        special_tokens_spec(n_vocab, languages_asked(None))[4].1 as int == (n_vocab + 5) % 0x1_0000_0000,
{
    lemma_special_token_layout(n_vocab, languages_asked(None));
    let t = special_tokens_spec(n_vocab, languages_asked(None));
    assert(languages_spec()[0].1 == "english"@);
    reveal_strlit("<|english|>");
    reveal_strlit("<|");
    reveal_strlit("english");
    reveal_strlit("|>");
    assert(t[2].0 =~= "<|english|>"@);
}

/// Builds the BPE encoding from the lines of a `.tiktoken` vocabulary file: the
/// vocabulary, then the special tokens (end of text, start of transcript, one per
/// language for the first `num_languages` languages (default 1), the task and control
/// tokens, and the timestamps 0.00 to 30.00), ranked after the vocabulary.
pub fn get_encoding(lines: &Vec<String>, num_languages: Option<usize>) -> (r: Result<
    tiktoken_rs::CoreBPE,
    TokenizerError,
>)
    ensures
        match vocabulary(line_views(lines@)) {
            Err(k) => r is Err && reports(r->Err_0, k),
            Ok(m) => if !map_injective(m) {
                r is Err && r->Err_0 is DuplicateRank
            } else {
                &&& (r is Ok <==> bpe_accepts(
                    m,
                    insert_all(special_tokens_spec(m.len() as usize, languages_asked(num_languages))),
                    token_pattern_spec(),
                ))
                &&& (r is Err ==> r->Err_0 is Encoding)
                &&& (r matches Ok(bpe) ==> bpe_encoder(bpe) == m)
                &&& (r matches Ok(bpe) ==> bpe_special_encoder(bpe) == insert_all(
                    special_tokens_spec(m.len() as usize, languages_asked(num_languages)),
                ))
                &&& (r matches Ok(bpe) ==> bpe_decoder(bpe) == m.invert())
                &&& (r matches Ok(bpe) ==> decodes_specials(
                    insert_all(special_tokens_spec(m.len() as usize, languages_asked(num_languages))),
                    bpe_special_decoder(bpe),
                ))
            },
        },
{
    let num_languages = match num_languages {
        Some(n) => n,
        None => 1,
    };
    let table = match build_vocabulary(lines) {
        Ok(t) => t,
        Err(e) => return Err(e),
    };
    if !table.ranks_distinct() {
        return Err(TokenizerError::DuplicateRank);
    }
    let n_vocab = table.len();
    let specials = keep_last_rank(&special_token_list(n_vocab, num_languages));
    let encoder = table.into_pairs();
    match core_bpe_new(encoder, specials, token_pattern()) {
        Ok(bpe) => Ok(bpe),
        Err(e) => Err(TokenizerError::Encoding(e)),
    }
}

} // verus!
