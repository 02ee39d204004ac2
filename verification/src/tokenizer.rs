//! Which Lindera dictionary tokenizes the target-language text of an index.

use vstd::prelude::*;
use crate::text::{has_prefix, starts_with, str_eq};

verus! {

/// Japanese dictionary.
pub const IPADIC: &'static str = "lindera-ipadic";
/// Korean dictionary.
pub const KO_DIC: &'static str = "lindera-ko-dic";
/// Chinese dictionary.
pub const JIEBA: &'static str = "lindera-jieba";
/// Name of Tantivy's built-in tokenizer.
pub const DEFAULT_TOKENIZER: &'static str = "default";

/// The dictionaries that can be downloaded and registered as tokenizers.
pub const DICTIONARY_NAMES: [&'static str; 3] = [IPADIC, KO_DIC, JIEBA];

/// Error text for a regex search in inverse mode on a language that needs a dictionary.
pub const INVERSE_REGEX_CJK_ERROR: &'static str = "Regex search cannot be used with inverse mode for Chinese, Japanese, or Korean. Use a plain inverse search, or use regex in forward mode.";

/// The tokenizer name for a target language: Chinese (`lzh` or `zh*`) uses Jieba,
/// Japanese (`ja*`) IPADIC, Korean (`ko*`) ko-dic, anything else the default tokenizer.
pub open spec fn tokenizer_for(lang: Seq<char>) -> Seq<char> {
    if lang == "lzh"@ || has_prefix(lang, "zh"@) {
        JIEBA@
    } else if has_prefix(lang, "ja"@) {
        IPADIC@
    } else if has_prefix(lang, "ko"@) {
        KO_DIC@
    } else {
        DEFAULT_TOKENIZER@
    }
}

/// `true` when `name` is one of [`DICTIONARY_NAMES`].
pub open spec fn is_dictionary(name: Seq<char>) -> bool {
    name == IPADIC@ || name == KO_DIC@ || name == JIEBA@
}

/// Returns the tokenizer registered for `target_language`'s text.
pub fn target_tokenizer_name(target_language: &str) -> (r: &'static str)
    ensures
        r@ == tokenizer_for(target_language@),
{
    if str_eq(target_language, "lzh") || starts_with(target_language, "zh") {
        JIEBA
    } else if starts_with(target_language, "ja") {
        IPADIC
    } else if starts_with(target_language, "ko") {
        KO_DIC
    } else {
        DEFAULT_TOKENIZER
    }
}

/// `true` when the language's text is tokenized with Tantivy's default tokenizer.
pub fn uses_default_tokenizer(target_language: &str) -> (r: bool)
    ensures
        r == (tokenizer_for(target_language@) == DEFAULT_TOKENIZER@),
{
    let name = target_tokenizer_name(target_language);
    str_eq(name, DEFAULT_TOKENIZER)
}

/// `true` when `name` is one of the known dictionaries.
pub fn is_dictionary_name(name: &str) -> (r: bool)
    ensures
        r == is_dictionary(name@),
{
    str_eq(name, IPADIC) || str_eq(name, KO_DIC) || str_eq(name, JIEBA)
}

/// Every tokenizer other than the default one is a known dictionary.
pub proof fn lemma_tokenizer_is_dictionary_or_default(lang: Seq<char>)
    ensures
        tokenizer_for(lang) == DEFAULT_TOKENIZER@ || is_dictionary(tokenizer_for(lang)),
{
}


/// Which tokenizer a language gets: every Chinese code (`zh…`, and Literary Chinese `lzh`)
/// uses Jieba, every Japanese code (`ja…`) IPADIC, every Korean code (`ko…`) ko-dic, and every
/// other language the default tokenizer.
pub proof fn lemma_tokenizer_by_language(lang: Seq<char>)
    ensures
        has_prefix(lang, "zh"@) ==> tokenizer_for(lang) == JIEBA@,
        lang == "lzh"@ ==> tokenizer_for(lang) == JIEBA@,
        has_prefix(lang, "ja"@) ==> tokenizer_for(lang) == IPADIC@,
        has_prefix(lang, "ko"@) ==> tokenizer_for(lang) == KO_DIC@,
        !has_prefix(lang, "zh"@) && lang != "lzh"@ && !has_prefix(lang, "ja"@) && !has_prefix(lang, "ko"@)
            ==> tokenizer_for(lang) == DEFAULT_TOKENIZER@,
        JIEBA@ == "lindera-jieba"@ && IPADIC@ == "lindera-ipadic"@ && KO_DIC@ == "lindera-ko-dic"@
            && DEFAULT_TOKENIZER@ == "default"@,
{
    reveal_strlit("ja");
    reveal_strlit("zh");
    reveal_strlit("ko");
    reveal_strlit("lzh");
    if lang.len() >= 2 {
        assert(lang.take(2)[0] == lang[0]);
    }
    if has_prefix(lang, "ja"@) {
        assert(lang.take(2)[0] == "ja"@[0]);
    }
    if has_prefix(lang, "ko"@) {
        assert(lang.take(2)[0] == "ko"@[0]);
    }
    if has_prefix(lang, "zh"@) {
        assert(lang.take(2)[0] == "zh"@[0]);
    }
}

} // verus!
