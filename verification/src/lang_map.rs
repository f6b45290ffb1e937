//! Language tags of audio and subtitle tracks.
//!
//! Track tags are mostly ISO 639-2 (bibliographic `fre`, `ger`, `chi`, `rum`
//! or terminologic `fra`, `deu`, `zho`, `ron`); TMDB's `original_language` is
//! ISO 639-1 (`fr`, `de`). Every track tag is normalised to ISO 639-1 so the
//! two can be compared.
use vstd::prelude::*;
use crate::text::{lower_char, lemma_trim_ends, lemma_trim_of_trimmed, ascii_lower, chars_of, eq_chars, eq_str, to_ascii_lowercase, trim, trim_chars};

verus! {
/// ISO 639-1 code of a trimmed, lower-case ISO 639-1 or 639-2 tag (first half of the table).
pub open spec fn iso_639_1_of_a(t: Seq<char>) -> Option<Seq<char>> {
    if t == "en"@ || t == "eng"@ {
        Some("en"@)
    } else if t == "ru"@ || t == "rus"@ {
        Some("ru"@)
    } else if t == "fr"@ || t == "fre"@ || t == "fra"@ {
        Some("fr"@)
    } else if t == "de"@ || t == "ger"@ || t == "deu"@ || t == "gem"@ {
        Some("de"@)
    } else if t == "ja"@ || t == "jpn"@ {
        Some("ja"@)
    } else if t == "it"@ || t == "ita"@ {
        Some("it"@)
    } else if t == "es"@ || t == "spa"@ {
        Some("es"@)
    } else if t == "zh"@ || t == "chi"@ || t == "zho"@ || t == "yue"@ {
        Some("zh"@)
    } else if t == "uk"@ || t == "ukr"@ {
        Some("uk"@)
    } else if t == "pl"@ || t == "pol"@ {
        Some("pl"@)
    } else if t == "cs"@ || t == "cze"@ || t == "ces"@ {
        Some("cs"@)
    } else if t == "da"@ || t == "dan"@ {
        Some("da"@)
    } else if t == "pt"@ || t == "por"@ {
        Some("pt"@)
    } else if t == "hu"@ || t == "hun"@ {
        Some("hu"@)
    } else if t == "tr"@ || t == "tur"@ {
        Some("tr"@)
    } else if t == "fa"@ || t == "per"@ || t == "fas"@ {
        Some("fa"@)
    } else if t == "sk"@ || t == "slo"@ || t == "slk"@ {
        Some("sk"@)
    } else if t == "sl"@ || t == "slv"@ {
        Some("sl"@)
    } else if t == "th"@ || t == "tha"@ {
        Some("th"@)
    } else if t == "sv"@ || t == "swe"@ {
        Some("sv"@)
    } else if t == "ko"@ || t == "kor"@ {
        Some("ko"@)
    } else if t == "ro"@ || t == "rum"@ || t == "ron"@ {
        Some("ro"@)
    } else if t == "el"@ || t == "gre"@ || t == "ell"@ {
        Some("el"@)
    } else {
        iso_639_1_of_b(t)
    }
}

/// ISO 639-1 code of a trimmed, lower-case tag (second half of the table); `None` for
/// `und`, `zxx`, `mul`, `mis` and unknown tags.
pub open spec fn iso_639_1_of_b(t: Seq<char>) -> Option<Seq<char>> {
    if t == "fi"@ || t == "fin"@ {
        Some("fi"@)
    } else if t == "hi"@ || t == "hin"@ {
        Some("hi"@)
    } else if t == "hy"@ || t == "arm"@ || t == "hye"@ {
        Some("hy"@)
    } else if t == "hr"@ || t == "hrv"@ {
        Some("hr"@)
    } else if t == "ka"@ || t == "geo"@ || t == "kat"@ {
        Some("ka"@)
    } else if t == "id"@ || t == "ind"@ {
        Some("id"@)
    } else if t == "nl"@ || t == "dut"@ || t == "nld"@ {
        Some("nl"@)
    } else if t == "no"@ || t == "nor"@ || t == "nob"@ {
        Some("no"@)
    } else if t == "ar"@ || t == "ara"@ {
        Some("ar"@)
    } else if t == "he"@ || t == "heb"@ {
        Some("he"@)
    } else if t == "ca"@ || t == "cat"@ {
        Some("ca"@)
    } else if t == "vi"@ || t == "vie"@ {
        Some("vi"@)
    } else if t == "et"@ || t == "est"@ {
        Some("et"@)
    } else if t == "lt"@ || t == "lit"@ {
        Some("lt"@)
    } else if t == "lv"@ || t == "lav"@ {
        Some("lv"@)
    } else if t == "bg"@ || t == "bul"@ {
        Some("bg"@)
    } else if t == "is"@ || t == "ice"@ || t == "isl"@ {
        Some("is"@)
    } else if t == "mk"@ || t == "mac"@ || t == "mkd"@ {
        Some("mk"@)
    } else if t == "sr"@ || t == "srp"@ {
        Some("sr"@)
    } else if t == "ms"@ || t == "may"@ || t == "msa"@ {
        Some("ms"@)
    } else if t == "nv"@ || t == "nav"@ {
        Some("nv"@)
    } else if t == "ta"@ || t == "tam"@ {
        Some("ta"@)
    } else if t == "tl"@ || t == "tgl"@ || t == "phi"@ {
        Some("tl"@)
    } else if t == "grc"@ {
        Some("grc"@)
    } else {
        None
    }
}

/// ISO 639-1 code that `to_iso_639_1` gives for a raw track tag.
pub open spec fn iso_639_1(tag: Seq<char>) -> Option<Seq<char>> {
    iso_639_1_of_a(ascii_lower(trim(tag)))
}

fn lookup_a(t: &Vec<char>) -> (r: Option<&'static str>)
    ensures
        r matches Some(c) ==> iso_639_1_of_a(t@) == Some(c@),
        r is None ==> iso_639_1_of_a(t@) is None,
{
    if eq_str(t, "en") || eq_str(t, "eng") {
        Some("en")
    } else if eq_str(t, "ru") || eq_str(t, "rus") {
        Some("ru")
    } else if eq_str(t, "fr") || eq_str(t, "fre") || eq_str(t, "fra") {
        Some("fr")
    } else if eq_str(t, "de") || eq_str(t, "ger") || eq_str(t, "deu") || eq_str(t, "gem") {
        Some("de")
    } else if eq_str(t, "ja") || eq_str(t, "jpn") {
        Some("ja")
    } else if eq_str(t, "it") || eq_str(t, "ita") {
        Some("it")
    } else if eq_str(t, "es") || eq_str(t, "spa") {
        Some("es")
    } else if eq_str(t, "zh") || eq_str(t, "chi") || eq_str(t, "zho") || eq_str(t, "yue") {
        Some("zh")
    } else if eq_str(t, "uk") || eq_str(t, "ukr") {
        Some("uk")
    } else if eq_str(t, "pl") || eq_str(t, "pol") {
        Some("pl")
    } else if eq_str(t, "cs") || eq_str(t, "cze") || eq_str(t, "ces") {
        Some("cs")
    } else if eq_str(t, "da") || eq_str(t, "dan") {
        Some("da")
    } else if eq_str(t, "pt") || eq_str(t, "por") {
        Some("pt")
    } else if eq_str(t, "hu") || eq_str(t, "hun") {
        Some("hu")
    } else if eq_str(t, "tr") || eq_str(t, "tur") {
        Some("tr")
    } else if eq_str(t, "fa") || eq_str(t, "per") || eq_str(t, "fas") {
        Some("fa")
    } else if eq_str(t, "sk") || eq_str(t, "slo") || eq_str(t, "slk") {
        Some("sk")
    } else if eq_str(t, "sl") || eq_str(t, "slv") {
        Some("sl")
    } else if eq_str(t, "th") || eq_str(t, "tha") {
        Some("th")
    } else if eq_str(t, "sv") || eq_str(t, "swe") {
        Some("sv")
    } else if eq_str(t, "ko") || eq_str(t, "kor") {
        Some("ko")
    } else if eq_str(t, "ro") || eq_str(t, "rum") || eq_str(t, "ron") {
        Some("ro")
    } else if eq_str(t, "el") || eq_str(t, "gre") || eq_str(t, "ell") {
        Some("el")
    } else {
        lookup_b(t)
    }
}

fn lookup_b(t: &Vec<char>) -> (r: Option<&'static str>)
    ensures
        r matches Some(c) ==> iso_639_1_of_b(t@) == Some(c@),
        r is None ==> iso_639_1_of_b(t@) is None,
{
    if eq_str(t, "fi") || eq_str(t, "fin") {
        Some("fi")
    } else if eq_str(t, "hi") || eq_str(t, "hin") {
        Some("hi")
    } else if eq_str(t, "hy") || eq_str(t, "arm") || eq_str(t, "hye") {
        Some("hy")
    } else if eq_str(t, "hr") || eq_str(t, "hrv") {
        Some("hr")
    } else if eq_str(t, "ka") || eq_str(t, "geo") || eq_str(t, "kat") {
        Some("ka")
    } else if eq_str(t, "id") || eq_str(t, "ind") {
        Some("id")
    } else if eq_str(t, "nl") || eq_str(t, "dut") || eq_str(t, "nld") {
        Some("nl")
    } else if eq_str(t, "no") || eq_str(t, "nor") || eq_str(t, "nob") {
        Some("no")
    } else if eq_str(t, "ar") || eq_str(t, "ara") {
        Some("ar")
    } else if eq_str(t, "he") || eq_str(t, "heb") {
        Some("he")
    } else if eq_str(t, "ca") || eq_str(t, "cat") {
        Some("ca")
    } else if eq_str(t, "vi") || eq_str(t, "vie") {
        Some("vi")
    } else if eq_str(t, "et") || eq_str(t, "est") {
        Some("et")
    } else if eq_str(t, "lt") || eq_str(t, "lit") {
        Some("lt")
    } else if eq_str(t, "lv") || eq_str(t, "lav") {
        Some("lv")
    } else if eq_str(t, "bg") || eq_str(t, "bul") {
        Some("bg")
    } else if eq_str(t, "is") || eq_str(t, "ice") || eq_str(t, "isl") {
        Some("is")
    } else if eq_str(t, "mk") || eq_str(t, "mac") || eq_str(t, "mkd") {
        Some("mk")
    } else if eq_str(t, "sr") || eq_str(t, "srp") {
        Some("sr")
    } else if eq_str(t, "ms") || eq_str(t, "may") || eq_str(t, "msa") {
        Some("ms")
    } else if eq_str(t, "nv") || eq_str(t, "nav") {
        Some("nv")
    } else if eq_str(t, "ta") || eq_str(t, "tam") {
        Some("ta")
    } else if eq_str(t, "tl") || eq_str(t, "tgl") || eq_str(t, "phi") {
        Some("tl")
    } else if eq_str(t, "grc") {
        Some("grc")
    } else {
        None
    }
}

/// Normalise an ISO 639-2 tag (either /B or /T) to its ISO 639-1 code.
/// Returns `None` for non-language tags (`und`, `zxx`, `mul`, `mis`) or
/// unknown codes.
pub fn to_iso_639_1(tag: &str) -> (r: Option<&'static str>)
    ensures
        r matches Some(c) ==> iso_639_1(tag@) == Some(c@),
        r is None ==> iso_639_1(tag@) is None,
{
    let t = to_ascii_lowercase(&trim_chars(&chars_of(tag)));
    lookup_a(&t)
}

/// Whether a TMDB `original_language` value names the language of a track
/// whose tag normalises to `track_iso1`. TMDB's non-ISO `cn` (Cantonese)
/// matches any Chinese track (`zh` or `yue`).
pub open spec fn tmdb_lang_matches(tmdb_lang: Seq<char>, track_iso1: Seq<char>) -> bool {
    let tmdb = ascii_lower(trim(tmdb_lang));
    if tmdb == "cn"@ {
        track_iso1 == "zh"@ || track_iso1 == "yue"@
    } else {
        tmdb == track_iso1
    }
}

/// Does a TMDB `original_language` value match a track's normalised 639-1 code?
pub fn tmdb_matches(tmdb_lang: &str, track_iso1: &str) -> (r: bool)
    ensures
        r == tmdb_lang_matches(tmdb_lang@, track_iso1@),
{
    let tmdb = to_ascii_lowercase(&trim_chars(&chars_of(tmdb_lang)));
    if eq_str(&tmdb, "cn") {
        let track = chars_of(track_iso1);
        return eq_str(&track, "zh") || eq_str(&track, "yue");
    }
    let track = chars_of(track_iso1);
    eq_chars(&tmdb, &track)
}

/// A code of two lower-case ASCII letters, or `grc`.
pub open spec fn code_shape(c: Seq<char>) -> bool {
    &&& (c.len() == 2 || c == "grc"@)
    &&& forall|i: int| 0 <= i < c.len() ==> 'a' <= #[trigger] c[i] && c[i] <= 'z'
}

/// Each of these codes normalises to itself.
#[verifier::rlimit(50)]
proof fn lemma_codes_fixed_0()
    ensures
        iso_639_1("en"@) == Some("en"@) && code_shape("en"@),
        iso_639_1("ru"@) == Some("ru"@) && code_shape("ru"@),
        iso_639_1("fr"@) == Some("fr"@) && code_shape("fr"@),
        iso_639_1("de"@) == Some("de"@) && code_shape("de"@),
        iso_639_1("ja"@) == Some("ja"@) && code_shape("ja"@),
        iso_639_1("it"@) == Some("it"@) && code_shape("it"@),
        iso_639_1("es"@) == Some("es"@) && code_shape("es"@),
        iso_639_1("zh"@) == Some("zh"@) && code_shape("zh"@),
        iso_639_1("uk"@) == Some("uk"@) && code_shape("uk"@),
        iso_639_1("pl"@) == Some("pl"@) && code_shape("pl"@),
        iso_639_1("cs"@) == Some("cs"@) && code_shape("cs"@),
        iso_639_1("da"@) == Some("da"@) && code_shape("da"@),
{
    reveal_strlit("ar");
    reveal_strlit("ara");
    reveal_strlit("arm");
    reveal_strlit("bg");
    reveal_strlit("bul");
    reveal_strlit("ca");
    reveal_strlit("cat");
    reveal_strlit("ces");
    reveal_strlit("chi");
    reveal_strlit("cn");
    reveal_strlit("cs");
    reveal_strlit("cze");
    reveal_strlit("da");
    reveal_strlit("dan");
    reveal_strlit("de");
    reveal_strlit("deu");
    reveal_strlit("dut");
    reveal_strlit("el");
    reveal_strlit("ell");
    reveal_strlit("en");
    reveal_strlit("eng");
    reveal_strlit("es");
    reveal_strlit("est");
    reveal_strlit("et");
    reveal_strlit("fa");
    reveal_strlit("fas");
    reveal_strlit("fi");
    reveal_strlit("fin");
    reveal_strlit("fr");
    reveal_strlit("fra");
    reveal_strlit("fre");
    reveal_strlit("gem");
    reveal_strlit("geo");
    reveal_strlit("ger");
    reveal_strlit("grc");
    reveal_strlit("gre");
    reveal_strlit("he");
    reveal_strlit("heb");
    reveal_strlit("hi");
    reveal_strlit("hin");
    reveal_strlit("hr");
    reveal_strlit("hrv");
    reveal_strlit("hu");
    reveal_strlit("hun");
    reveal_strlit("hy");
    reveal_strlit("hye");
    reveal_strlit("ice");
    reveal_strlit("id");
    reveal_strlit("ind");
    reveal_strlit("is");
    reveal_strlit("isl");
    reveal_strlit("it");
    reveal_strlit("ita");
    reveal_strlit("ja");
    reveal_strlit("jpn");
    reveal_strlit("ka");
    reveal_strlit("kat");
    reveal_strlit("ko");
    reveal_strlit("kor");
    reveal_strlit("lav");
    reveal_strlit("lit");
    reveal_strlit("lt");
    reveal_strlit("lv");
    reveal_strlit("mac");
    reveal_strlit("may");
    reveal_strlit("mk");
    reveal_strlit("mkd");
    reveal_strlit("ms");
    reveal_strlit("msa");
    reveal_strlit("nav");
    reveal_strlit("nl");
    reveal_strlit("nld");
    reveal_strlit("no");
    reveal_strlit("nob");
    reveal_strlit("nor");
    reveal_strlit("nv");
    reveal_strlit("per");
    reveal_strlit("phi");
    reveal_strlit("pl");
    reveal_strlit("pol");
    reveal_strlit("por");
    reveal_strlit("pt");
    reveal_strlit("ro");
    reveal_strlit("ron");
    reveal_strlit("ru");
    reveal_strlit("rum");
    reveal_strlit("rus");
    reveal_strlit("sk");
    reveal_strlit("sl");
    reveal_strlit("slk");
    reveal_strlit("slo");
    reveal_strlit("slv");
    reveal_strlit("spa");
    reveal_strlit("sr");
    reveal_strlit("srp");
    reveal_strlit("sv");
    reveal_strlit("swe");
    reveal_strlit("ta");
    reveal_strlit("tam");
    reveal_strlit("tgl");
    reveal_strlit("th");
    reveal_strlit("tha");
    reveal_strlit("tl");
    reveal_strlit("tr");
    reveal_strlit("tur");
    reveal_strlit("uk");
    reveal_strlit("ukr");
    reveal_strlit("vi");
    reveal_strlit("vie");
    reveal_strlit("yue");
    reveal_strlit("zh");
    reveal_strlit("zho");
    assert(iso_639_1("en"@) == Some("en"@)) by {
        assert(trim("en"@) == "en"@);
        assert(ascii_lower("en"@) == "en"@);
    }
    assert(code_shape("en"@));
    assert(iso_639_1("ru"@) == Some("ru"@)) by {
        assert(trim("ru"@) == "ru"@);
        assert(ascii_lower("ru"@) == "ru"@);
    }
    assert(code_shape("ru"@));
    assert(iso_639_1("fr"@) == Some("fr"@)) by {
        assert(trim("fr"@) == "fr"@);
        assert(ascii_lower("fr"@) == "fr"@);
    }
    assert(code_shape("fr"@));
    assert(iso_639_1("de"@) == Some("de"@)) by {
        assert(trim("de"@) == "de"@);
        assert(ascii_lower("de"@) == "de"@);
    }
    assert(code_shape("de"@));
    assert(iso_639_1("ja"@) == Some("ja"@)) by {
        assert(trim("ja"@) == "ja"@);
        assert(ascii_lower("ja"@) == "ja"@);
    }
    assert(code_shape("ja"@));
    assert(iso_639_1("it"@) == Some("it"@)) by {
        assert(trim("it"@) == "it"@);
        assert(ascii_lower("it"@) == "it"@);
    }
    assert(code_shape("it"@));
    assert(iso_639_1("es"@) == Some("es"@)) by {
        assert(trim("es"@) == "es"@);
        assert(ascii_lower("es"@) == "es"@);
    }
    assert(code_shape("es"@));
    assert(iso_639_1("zh"@) == Some("zh"@)) by {
        assert(trim("zh"@) == "zh"@);
        assert(ascii_lower("zh"@) == "zh"@);
    }
    assert(code_shape("zh"@));
    assert(iso_639_1("uk"@) == Some("uk"@)) by {
        assert(trim("uk"@) == "uk"@);
        assert(ascii_lower("uk"@) == "uk"@);
    }
    assert(code_shape("uk"@));
    assert(iso_639_1("pl"@) == Some("pl"@)) by {
        assert(trim("pl"@) == "pl"@);
        assert(ascii_lower("pl"@) == "pl"@);
    }
    assert(code_shape("pl"@));
    assert(iso_639_1("cs"@) == Some("cs"@)) by {
        assert(trim("cs"@) == "cs"@);
        assert(ascii_lower("cs"@) == "cs"@);
    }
    assert(code_shape("cs"@));
    assert(iso_639_1("da"@) == Some("da"@)) by {
        assert(trim("da"@) == "da"@);
        assert(ascii_lower("da"@) == "da"@);
    }
    assert(code_shape("da"@));
}

/// Each of these codes normalises to itself.
#[verifier::rlimit(50)]
proof fn lemma_codes_fixed_1()
    ensures
        iso_639_1("pt"@) == Some("pt"@) && code_shape("pt"@),
        iso_639_1("hu"@) == Some("hu"@) && code_shape("hu"@),
        iso_639_1("tr"@) == Some("tr"@) && code_shape("tr"@),
        iso_639_1("fa"@) == Some("fa"@) && code_shape("fa"@),
        iso_639_1("sk"@) == Some("sk"@) && code_shape("sk"@),
        iso_639_1("sl"@) == Some("sl"@) && code_shape("sl"@),
        iso_639_1("th"@) == Some("th"@) && code_shape("th"@),
        iso_639_1("sv"@) == Some("sv"@) && code_shape("sv"@),
        iso_639_1("ko"@) == Some("ko"@) && code_shape("ko"@),
        iso_639_1("ro"@) == Some("ro"@) && code_shape("ro"@),
        iso_639_1("el"@) == Some("el"@) && code_shape("el"@),
        iso_639_1("fi"@) == Some("fi"@) && code_shape("fi"@),
{
    reveal_strlit("ar");
    reveal_strlit("ara");
    reveal_strlit("arm");
    reveal_strlit("bg");
    reveal_strlit("bul");
    reveal_strlit("ca");
    reveal_strlit("cat");
    reveal_strlit("ces");
    reveal_strlit("chi");
    reveal_strlit("cn");
    reveal_strlit("cs");
    reveal_strlit("cze");
    reveal_strlit("da");
    reveal_strlit("dan");
    reveal_strlit("de");
    reveal_strlit("deu");
    reveal_strlit("dut");
    reveal_strlit("el");
    reveal_strlit("ell");
    reveal_strlit("en");
    reveal_strlit("eng");
    reveal_strlit("es");
    reveal_strlit("est");
    reveal_strlit("et");
    reveal_strlit("fa");
    reveal_strlit("fas");
    reveal_strlit("fi");
    reveal_strlit("fin");
    reveal_strlit("fr");
    reveal_strlit("fra");
    reveal_strlit("fre");
    reveal_strlit("gem");
    reveal_strlit("geo");
    reveal_strlit("ger");
    reveal_strlit("grc");
    reveal_strlit("gre");
    reveal_strlit("he");
    reveal_strlit("heb");
    reveal_strlit("hi");
    reveal_strlit("hin");
    reveal_strlit("hr");
    reveal_strlit("hrv");
    reveal_strlit("hu");
    reveal_strlit("hun");
    reveal_strlit("hy");
    reveal_strlit("hye");
    reveal_strlit("ice");
    reveal_strlit("id");
    reveal_strlit("ind");
    reveal_strlit("is");
    reveal_strlit("isl");
    reveal_strlit("it");
    reveal_strlit("ita");
    reveal_strlit("ja");
    reveal_strlit("jpn");
    reveal_strlit("ka");
    reveal_strlit("kat");
    reveal_strlit("ko");
    reveal_strlit("kor");
    reveal_strlit("lav");
    reveal_strlit("lit");
    reveal_strlit("lt");
    reveal_strlit("lv");
    reveal_strlit("mac");
    reveal_strlit("may");
    reveal_strlit("mk");
    reveal_strlit("mkd");
    reveal_strlit("ms");
    reveal_strlit("msa");
    reveal_strlit("nav");
    reveal_strlit("nl");
    reveal_strlit("nld");
    reveal_strlit("no");
    reveal_strlit("nob");
    reveal_strlit("nor");
    reveal_strlit("nv");
    reveal_strlit("per");
    reveal_strlit("phi");
    reveal_strlit("pl");
    reveal_strlit("pol");
    reveal_strlit("por");
    reveal_strlit("pt");
    reveal_strlit("ro");
    reveal_strlit("ron");
    reveal_strlit("ru");
    reveal_strlit("rum");
    reveal_strlit("rus");
    reveal_strlit("sk");
    reveal_strlit("sl");
    reveal_strlit("slk");
    reveal_strlit("slo");
    reveal_strlit("slv");
    reveal_strlit("spa");
    reveal_strlit("sr");
    reveal_strlit("srp");
    reveal_strlit("sv");
    reveal_strlit("swe");
    reveal_strlit("ta");
    reveal_strlit("tam");
    reveal_strlit("tgl");
    reveal_strlit("th");
    reveal_strlit("tha");
    reveal_strlit("tl");
    reveal_strlit("tr");
    reveal_strlit("tur");
    reveal_strlit("uk");
    reveal_strlit("ukr");
    reveal_strlit("vi");
    reveal_strlit("vie");
    reveal_strlit("yue");
    reveal_strlit("zh");
    reveal_strlit("zho");
    assert(iso_639_1("pt"@) == Some("pt"@)) by {
        assert(trim("pt"@) == "pt"@);
        assert(ascii_lower("pt"@) == "pt"@);
    }
    assert(code_shape("pt"@));
    assert(iso_639_1("hu"@) == Some("hu"@)) by {
        assert(trim("hu"@) == "hu"@);
        assert(ascii_lower("hu"@) == "hu"@);
    }
    assert(code_shape("hu"@));
    assert(iso_639_1("tr"@) == Some("tr"@)) by {
        assert(trim("tr"@) == "tr"@);
        assert(ascii_lower("tr"@) == "tr"@);
    }
    assert(code_shape("tr"@));
    assert(iso_639_1("fa"@) == Some("fa"@)) by {
        assert(trim("fa"@) == "fa"@);
        assert(ascii_lower("fa"@) == "fa"@);
    }
    assert(code_shape("fa"@));
    assert(iso_639_1("sk"@) == Some("sk"@)) by {
        assert(trim("sk"@) == "sk"@);
        assert(ascii_lower("sk"@) == "sk"@);
    }
    assert(code_shape("sk"@));
    assert(iso_639_1("sl"@) == Some("sl"@)) by {
        assert(trim("sl"@) == "sl"@);
        assert(ascii_lower("sl"@) == "sl"@);
    }
    assert(code_shape("sl"@));
    assert(iso_639_1("th"@) == Some("th"@)) by {
        assert(trim("th"@) == "th"@);
        assert(ascii_lower("th"@) == "th"@);
    }
    assert(code_shape("th"@));
    assert(iso_639_1("sv"@) == Some("sv"@)) by {
        assert(trim("sv"@) == "sv"@);
        assert(ascii_lower("sv"@) == "sv"@);
    }
    assert(code_shape("sv"@));
    assert(iso_639_1("ko"@) == Some("ko"@)) by {
        assert(trim("ko"@) == "ko"@);
        assert(ascii_lower("ko"@) == "ko"@);
    }
    assert(code_shape("ko"@));
    assert(iso_639_1("ro"@) == Some("ro"@)) by {
        assert(trim("ro"@) == "ro"@);
        assert(ascii_lower("ro"@) == "ro"@);
    }
    assert(code_shape("ro"@));
    assert(iso_639_1("el"@) == Some("el"@)) by {
        assert(trim("el"@) == "el"@);
        assert(ascii_lower("el"@) == "el"@);
    }
    assert(code_shape("el"@));
    assert(iso_639_1("fi"@) == Some("fi"@)) by {
        assert(trim("fi"@) == "fi"@);
        assert(ascii_lower("fi"@) == "fi"@);
    }
    assert(code_shape("fi"@));
}

/// Each of these codes normalises to itself.
#[verifier::rlimit(50)]
proof fn lemma_codes_fixed_2()
    ensures
        iso_639_1("hi"@) == Some("hi"@) && code_shape("hi"@),
        iso_639_1("hy"@) == Some("hy"@) && code_shape("hy"@),
        iso_639_1("hr"@) == Some("hr"@) && code_shape("hr"@),
        iso_639_1("ka"@) == Some("ka"@) && code_shape("ka"@),
        iso_639_1("id"@) == Some("id"@) && code_shape("id"@),
        iso_639_1("nl"@) == Some("nl"@) && code_shape("nl"@),
        iso_639_1("no"@) == Some("no"@) && code_shape("no"@),
        iso_639_1("ar"@) == Some("ar"@) && code_shape("ar"@),
        iso_639_1("he"@) == Some("he"@) && code_shape("he"@),
        iso_639_1("ca"@) == Some("ca"@) && code_shape("ca"@),
        iso_639_1("vi"@) == Some("vi"@) && code_shape("vi"@),
        iso_639_1("et"@) == Some("et"@) && code_shape("et"@),
{
    reveal_strlit("ar");
    reveal_strlit("ara");
    reveal_strlit("arm");
    reveal_strlit("bg");
    reveal_strlit("bul");
    reveal_strlit("ca");
    reveal_strlit("cat");
    reveal_strlit("ces");
    reveal_strlit("chi");
    reveal_strlit("cn");
    reveal_strlit("cs");
    reveal_strlit("cze");
    reveal_strlit("da");
    reveal_strlit("dan");
    reveal_strlit("de");
    reveal_strlit("deu");
    reveal_strlit("dut");
    reveal_strlit("el");
    reveal_strlit("ell");
    reveal_strlit("en");
    reveal_strlit("eng");
    reveal_strlit("es");
    reveal_strlit("est");
    reveal_strlit("et");
    reveal_strlit("fa");
    reveal_strlit("fas");
    reveal_strlit("fi");
    reveal_strlit("fin");
    reveal_strlit("fr");
    reveal_strlit("fra");
    reveal_strlit("fre");
    reveal_strlit("gem");
    reveal_strlit("geo");
    reveal_strlit("ger");
    reveal_strlit("grc");
    reveal_strlit("gre");
    reveal_strlit("he");
    reveal_strlit("heb");
    reveal_strlit("hi");
    reveal_strlit("hin");
    reveal_strlit("hr");
    reveal_strlit("hrv");
    reveal_strlit("hu");
    reveal_strlit("hun");
    reveal_strlit("hy");
    reveal_strlit("hye");
    reveal_strlit("ice");
    reveal_strlit("id");
    reveal_strlit("ind");
    reveal_strlit("is");
    reveal_strlit("isl");
    reveal_strlit("it");
    reveal_strlit("ita");
    reveal_strlit("ja");
    reveal_strlit("jpn");
    reveal_strlit("ka");
    reveal_strlit("kat");
    reveal_strlit("ko");
    reveal_strlit("kor");
    reveal_strlit("lav");
    reveal_strlit("lit");
    reveal_strlit("lt");
    reveal_strlit("lv");
    reveal_strlit("mac");
    reveal_strlit("may");
    reveal_strlit("mk");
    reveal_strlit("mkd");
    reveal_strlit("ms");
    reveal_strlit("msa");
    reveal_strlit("nav");
    reveal_strlit("nl");
    reveal_strlit("nld");
    reveal_strlit("no");
    reveal_strlit("nob");
    reveal_strlit("nor");
    reveal_strlit("nv");
    reveal_strlit("per");
    reveal_strlit("phi");
    reveal_strlit("pl");
    reveal_strlit("pol");
    reveal_strlit("por");
    reveal_strlit("pt");
    reveal_strlit("ro");
    reveal_strlit("ron");
    reveal_strlit("ru");
    reveal_strlit("rum");
    reveal_strlit("rus");
    reveal_strlit("sk");
    reveal_strlit("sl");
    reveal_strlit("slk");
    reveal_strlit("slo");
    reveal_strlit("slv");
    reveal_strlit("spa");
    reveal_strlit("sr");
    reveal_strlit("srp");
    reveal_strlit("sv");
    reveal_strlit("swe");
    reveal_strlit("ta");
    reveal_strlit("tam");
    reveal_strlit("tgl");
    reveal_strlit("th");
    reveal_strlit("tha");
    reveal_strlit("tl");
    reveal_strlit("tr");
    reveal_strlit("tur");
    reveal_strlit("uk");
    reveal_strlit("ukr");
    reveal_strlit("vi");
    reveal_strlit("vie");
    reveal_strlit("yue");
    reveal_strlit("zh");
    reveal_strlit("zho");
    assert(iso_639_1("hi"@) == Some("hi"@)) by {
        assert(trim("hi"@) == "hi"@);
        assert(ascii_lower("hi"@) == "hi"@);
    }
    assert(code_shape("hi"@));
    assert(iso_639_1("hy"@) == Some("hy"@)) by {
        assert(trim("hy"@) == "hy"@);
        assert(ascii_lower("hy"@) == "hy"@);
    }
    assert(code_shape("hy"@));
    assert(iso_639_1("hr"@) == Some("hr"@)) by {
        assert(trim("hr"@) == "hr"@);
        assert(ascii_lower("hr"@) == "hr"@);
    }
    assert(code_shape("hr"@));
    assert(iso_639_1("ka"@) == Some("ka"@)) by {
        assert(trim("ka"@) == "ka"@);
        assert(ascii_lower("ka"@) == "ka"@);
    }
    assert(code_shape("ka"@));
    assert(iso_639_1("id"@) == Some("id"@)) by {
        assert(trim("id"@) == "id"@);
        assert(ascii_lower("id"@) == "id"@);
    }
    assert(code_shape("id"@));
    assert(iso_639_1("nl"@) == Some("nl"@)) by {
        assert(trim("nl"@) == "nl"@);
        assert(ascii_lower("nl"@) == "nl"@);
    }
    assert(code_shape("nl"@));
    assert(iso_639_1("no"@) == Some("no"@)) by {
        assert(trim("no"@) == "no"@);
        assert(ascii_lower("no"@) == "no"@);
    }
    assert(code_shape("no"@));
    assert(iso_639_1("ar"@) == Some("ar"@)) by {
        assert(trim("ar"@) == "ar"@);
        assert(ascii_lower("ar"@) == "ar"@);
    }
    assert(code_shape("ar"@));
    assert(iso_639_1("he"@) == Some("he"@)) by {
        assert(trim("he"@) == "he"@);
        assert(ascii_lower("he"@) == "he"@);
    }
    assert(code_shape("he"@));
    assert(iso_639_1("ca"@) == Some("ca"@)) by {
        assert(trim("ca"@) == "ca"@);
        assert(ascii_lower("ca"@) == "ca"@);
    }
    assert(code_shape("ca"@));
    assert(iso_639_1("vi"@) == Some("vi"@)) by {
        assert(trim("vi"@) == "vi"@);
        assert(ascii_lower("vi"@) == "vi"@);
    }
    assert(code_shape("vi"@));
    assert(iso_639_1("et"@) == Some("et"@)) by {
        assert(trim("et"@) == "et"@);
        assert(ascii_lower("et"@) == "et"@);
    }
    assert(code_shape("et"@));
}

/// Each of these codes normalises to itself.
#[verifier::rlimit(50)]
proof fn lemma_codes_fixed_3()
    ensures
        iso_639_1("lt"@) == Some("lt"@) && code_shape("lt"@),
        iso_639_1("lv"@) == Some("lv"@) && code_shape("lv"@),
        iso_639_1("bg"@) == Some("bg"@) && code_shape("bg"@),
        iso_639_1("is"@) == Some("is"@) && code_shape("is"@),
        iso_639_1("mk"@) == Some("mk"@) && code_shape("mk"@),
        iso_639_1("sr"@) == Some("sr"@) && code_shape("sr"@),
        iso_639_1("ms"@) == Some("ms"@) && code_shape("ms"@),
        iso_639_1("nv"@) == Some("nv"@) && code_shape("nv"@),
        iso_639_1("ta"@) == Some("ta"@) && code_shape("ta"@),
        iso_639_1("tl"@) == Some("tl"@) && code_shape("tl"@),
        iso_639_1("grc"@) == Some("grc"@) && code_shape("grc"@),
{
    reveal_strlit("ar");
    reveal_strlit("ara");
    reveal_strlit("arm");
    reveal_strlit("bg");
    reveal_strlit("bul");
    reveal_strlit("ca");
    reveal_strlit("cat");
    reveal_strlit("ces");
    reveal_strlit("chi");
    reveal_strlit("cn");
    reveal_strlit("cs");
    reveal_strlit("cze");
    reveal_strlit("da");
    reveal_strlit("dan");
    reveal_strlit("de");
    reveal_strlit("deu");
    reveal_strlit("dut");
    reveal_strlit("el");
    reveal_strlit("ell");
    reveal_strlit("en");
    reveal_strlit("eng");
    reveal_strlit("es");
    reveal_strlit("est");
    reveal_strlit("et");
    reveal_strlit("fa");
    reveal_strlit("fas");
    reveal_strlit("fi");
    reveal_strlit("fin");
    reveal_strlit("fr");
    reveal_strlit("fra");
    reveal_strlit("fre");
    reveal_strlit("gem");
    reveal_strlit("geo");
    reveal_strlit("ger");
    reveal_strlit("grc");
    reveal_strlit("gre");
    reveal_strlit("he");
    reveal_strlit("heb");
    reveal_strlit("hi");
    reveal_strlit("hin");
    reveal_strlit("hr");
    reveal_strlit("hrv");
    reveal_strlit("hu");
    reveal_strlit("hun");
    reveal_strlit("hy");
    reveal_strlit("hye");
    reveal_strlit("ice");
    reveal_strlit("id");
    reveal_strlit("ind");
    reveal_strlit("is");
    reveal_strlit("isl");
    reveal_strlit("it");
    reveal_strlit("ita");
    reveal_strlit("ja");
    reveal_strlit("jpn");
    reveal_strlit("ka");
    reveal_strlit("kat");
    reveal_strlit("ko");
    reveal_strlit("kor");
    reveal_strlit("lav");
    reveal_strlit("lit");
    reveal_strlit("lt");
    reveal_strlit("lv");
    reveal_strlit("mac");
    reveal_strlit("may");
    reveal_strlit("mk");
    reveal_strlit("mkd");
    reveal_strlit("ms");
    reveal_strlit("msa");
    reveal_strlit("nav");
    reveal_strlit("nl");
    reveal_strlit("nld");
    reveal_strlit("no");
    reveal_strlit("nob");
    reveal_strlit("nor");
    reveal_strlit("nv");
    reveal_strlit("per");
    reveal_strlit("phi");
    reveal_strlit("pl");
    reveal_strlit("pol");
    reveal_strlit("por");
    reveal_strlit("pt");
    reveal_strlit("ro");
    reveal_strlit("ron");
    reveal_strlit("ru");
    reveal_strlit("rum");
    reveal_strlit("rus");
    reveal_strlit("sk");
    reveal_strlit("sl");
    reveal_strlit("slk");
    reveal_strlit("slo");
    reveal_strlit("slv");
    reveal_strlit("spa");
    reveal_strlit("sr");
    reveal_strlit("srp");
    reveal_strlit("sv");
    reveal_strlit("swe");
    reveal_strlit("ta");
    reveal_strlit("tam");
    reveal_strlit("tgl");
    reveal_strlit("th");
    reveal_strlit("tha");
    reveal_strlit("tl");
    reveal_strlit("tr");
    reveal_strlit("tur");
    reveal_strlit("uk");
    reveal_strlit("ukr");
    reveal_strlit("vi");
    reveal_strlit("vie");
    reveal_strlit("yue");
    reveal_strlit("zh");
    reveal_strlit("zho");
    assert(iso_639_1("lt"@) == Some("lt"@)) by {
        assert(trim("lt"@) == "lt"@);
        assert(ascii_lower("lt"@) == "lt"@);
    }
    assert(code_shape("lt"@));
    assert(iso_639_1("lv"@) == Some("lv"@)) by {
        assert(trim("lv"@) == "lv"@);
        assert(ascii_lower("lv"@) == "lv"@);
    }
    assert(code_shape("lv"@));
    assert(iso_639_1("bg"@) == Some("bg"@)) by {
        assert(trim("bg"@) == "bg"@);
        assert(ascii_lower("bg"@) == "bg"@);
    }
    assert(code_shape("bg"@));
    assert(iso_639_1("is"@) == Some("is"@)) by {
        assert(trim("is"@) == "is"@);
        assert(ascii_lower("is"@) == "is"@);
    }
    assert(code_shape("is"@));
    assert(iso_639_1("mk"@) == Some("mk"@)) by {
        assert(trim("mk"@) == "mk"@);
        assert(ascii_lower("mk"@) == "mk"@);
    }
    assert(code_shape("mk"@));
    assert(iso_639_1("sr"@) == Some("sr"@)) by {
        assert(trim("sr"@) == "sr"@);
        assert(ascii_lower("sr"@) == "sr"@);
    }
    assert(code_shape("sr"@));
    assert(iso_639_1("ms"@) == Some("ms"@)) by {
        assert(trim("ms"@) == "ms"@);
        assert(ascii_lower("ms"@) == "ms"@);
    }
    assert(code_shape("ms"@));
    assert(iso_639_1("nv"@) == Some("nv"@)) by {
        assert(trim("nv"@) == "nv"@);
        assert(ascii_lower("nv"@) == "nv"@);
    }
    assert(code_shape("nv"@));
    assert(iso_639_1("ta"@) == Some("ta"@)) by {
        assert(trim("ta"@) == "ta"@);
        assert(ascii_lower("ta"@) == "ta"@);
    }
    assert(code_shape("ta"@));
    assert(iso_639_1("tl"@) == Some("tl"@)) by {
        assert(trim("tl"@) == "tl"@);
        assert(ascii_lower("tl"@) == "tl"@);
    }
    assert(code_shape("tl"@));
    assert(iso_639_1("grc"@) == Some("grc"@)) by {
        assert(trim("grc"@) == "grc"@);
        assert(ascii_lower("grc"@) == "grc"@);
    }
    assert(code_shape("grc"@));
}

/// Normalising is idempotent: the ISO 639-1 code a tag is normalised to
/// is normalised to itself, and it is two lower-case ASCII letters (or
/// `grc`).
pub proof fn lemma_normalised_code_is_fixed(tag: Seq<char>)
    ensures
        iso_639_1(tag) matches Some(c) ==> iso_639_1(c) == Some(c) && code_shape(c),
{
    lemma_codes_fixed_0();
    lemma_codes_fixed_1();
    lemma_codes_fixed_2();
    lemma_codes_fixed_3();
}

/// A tag is normalised as its trimmed, lower-case form is.
pub proof fn lemma_tag_normalises_as_trimmed_lower_form(tag: Seq<char>)
    ensures
        iso_639_1(tag) == iso_639_1(ascii_lower(trim(tag))),
{
    let t = trim(tag);
    let u = ascii_lower(t);
    lemma_trim_ends(tag);
    if u.len() > 0 {
        assert(u[0] == lower_char(t[0]));
        assert(u.last() == lower_char(t.last()));
    }
    lemma_trim_of_trimmed(u);
    assert(ascii_lower(u) =~= u);
}

} // verus!
