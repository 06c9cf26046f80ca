//! Which language a channel or title is in.
//!
//! Providers do not agree on how to say this: a name carries `FR |`, `[AR]`, `US:` or
//! `(SPANISH)`, a group title carries `ARABIC | MOVIES`, `tvg-language` carries
//! `English`, `eng` or `en`. The answer comes from several signals, tried
//! most-trustworthy first, and it is allowed to be "no idea": an unknown language stays
//! unknown, because a filter that took unknown for foreign would empty the library of
//! every provider that tags nothing.

use vstd::prelude::*;
use crate::m3u::strings_view;
use crate::pattern::{to_lowercase, unicode_lowercase};
use crate::text::{
    alphabetic, chars_of, is_alphabetic, opt_view, owned, slice, str_eq, string_of, trim, trimmed,
};
use crate::title::{fold, fold_diacritics, spec_split_country, split_country_prefix};
use crate::words::{alnum_only, alnum_pieces, keep_alnum, not_alnum, split_by};

verus! {

broadcast use vstd::string::group_string_axioms;

/// The view of an optional string slice.
pub open spec fn str_option(o: Option<&str>) -> Option<Seq<char>> {
    match o {
        Some(s) => Some(s@),
        None => None,
    }
}

// ---------------------------------------------------------------------------------------
// The tokens that name a language, with the ISO 639-1 code each stands for: the
// language's own names and the country codes that imply it, since playlists use them
// interchangeably. "UK" is the United Kingdom, not Ukrainian; "AR" is Arabic, and
// Argentina arrives as "ARG".
// ---------------------------------------------------------------------------------------

/// The tokens for English, and the countries that speak it; any other token is looked up further on.
pub open spec fn english_token(t: Seq<char>) -> Option<Seq<char>> {
    if t == "en"@ || t == "eng"@ || t == "english"@ || t == "anglais"@ || t == "uk"@ ||
        t == "gb"@ || t == "gbr"@ || t == "britain"@ || t == "british"@ || t == "us"@ ||
        t == "usa"@ || t == "america"@ || t == "american"@ || t == "au"@ || t == "aus"@ ||
        t == "australia"@ || t == "nz"@ || t == "newzealand"@ || t == "ie"@ || t == "irl"@ ||
        t == "ireland"@ || t == "irish"@ || t == "za"@ || t == "ca"@ || t == "can"@ ||
        t == "canada"@ {
        Some("en"@)
    } else {
        arabic_token(t)
    }
}

/// The tokens for Arabic, and the countries that speak it; any other token is looked up further on.
pub open spec fn arabic_token(t: Seq<char>) -> Option<Seq<char>> {
    if t == "ar"@ || t == "ara"@ || t == "arabic"@ || t == "arab"@ || t == "arabia"@ ||
        t == "sa"@ || t == "ksa"@ || t == "ae"@ || t == "uae"@ || t == "eg"@ ||
        t == "egypt"@ || t == "ma"@ || t == "dz"@ || t == "tn"@ || t == "iq"@ || t == "jo"@ ||
        t == "kw"@ || t == "qa"@ || t == "lb"@ || t == "ly"@ || t == "om"@ || t == "ye"@ ||
        t == "sy"@ || t == "bh"@ || t == "sd"@ || t == "mar"@ || t == "morocco"@ ||
        t == "algeria"@ {
        Some("ar"@)
    } else {
        romance_token(t)
    }
}

/// The tokens for French, Spanish, Italian and Portuguese; any other token is looked up further on.
pub open spec fn romance_token(t: Seq<char>) -> Option<Seq<char>> {
    if t == "fr"@ || t == "fra"@ || t == "fre"@ || t == "french"@ || t == "francais"@ ||
        t == "france"@ || t == "vf"@ || t == "vostfr"@ || t == "vfq"@ || t == "quebec"@ {
        Some("fr"@)
    } else if t == "es"@ || t == "esp"@ || t == "spa"@ || t == "spanish"@ || t == "espanol"@ ||
        t == "spain"@ || t == "espana"@ || t == "latino"@ || t == "lat"@ || t == "latin"@ ||
        t == "mx"@ || t == "mex"@ || t == "mexico"@ || t == "arg"@ || t == "argentina"@ ||
        t == "chile"@ || t == "colombia"@ || t == "peru"@ || t == "venezuela"@ ||
        t == "castellano"@ {
        Some("es"@)
    } else if t == "it"@ || t == "ita"@ || t == "italian"@ || t == "italiano"@ ||
        t == "italy"@ || t == "italia"@ {
        Some("it"@)
    } else if t == "pt"@ || t == "por"@ || t == "portuguese"@ || t == "portugues"@ ||
        t == "portugal"@ || t == "br"@ || t == "bra"@ || t == "brazil"@ || t == "brasil"@ {
        Some("pt"@)
    } else {
        germanic_token(t)
    }
}

/// The tokens for German, Dutch and the Nordic languages; any other token is looked up further on.
pub open spec fn germanic_token(t: Seq<char>) -> Option<Seq<char>> {
    if t == "de"@ || t == "deu"@ || t == "ger"@ || t == "german"@ || t == "deutsch"@ ||
        t == "germany"@ || t == "deutschland"@ || t == "at"@ || t == "aut"@ ||
        t == "austria"@ || t == "osterreich"@ {
        Some("de"@)
    } else if t == "nl"@ || t == "nld"@ || t == "dut"@ || t == "dutch"@ ||
        t == "nederlands"@ || t == "holland"@ || t == "netherlands"@ || t == "nederland"@ {
        Some("nl"@)
    } else if t == "se"@ || t == "swe"@ || t == "sv"@ || t == "swedish"@ || t == "sverige"@ {
        Some("sv"@)
    } else if t == "no"@ || t == "nor"@ || t == "norwegian"@ || t == "norge"@ {
        Some("no"@)
    } else if t == "dk"@ || t == "dan"@ || t == "da"@ || t == "danish"@ || t == "danmark"@ {
        Some("da"@)
    } else if t == "fi"@ || t == "fin"@ || t == "finnish"@ || t == "suomi"@ {
        Some("fi"@)
    } else if t == "is"@ || t == "isl"@ || t == "iceland"@ || t == "icelandic"@ {
        Some("is"@)
    } else {
        central_europe_token(t)
    }
}

/// The tokens for Russian, Ukrainian and central Europe; any other token is looked up further on.
pub open spec fn central_europe_token(t: Seq<char>) -> Option<Seq<char>> {
    if t == "ru"@ || t == "rus"@ || t == "russian"@ || t == "russia"@ {
        Some("ru"@)
    } else if t == "ukr"@ || t == "ukraine"@ || t == "ukrainian"@ {
        Some("uk"@)
    } else if t == "pl"@ || t == "pol"@ || t == "polish"@ || t == "polska"@ {
        Some("pl"@)
    } else if t == "cz"@ || t == "cze"@ || t == "ces"@ || t == "czech"@ || t == "cesko"@ {
        Some("cs"@)
    } else if t == "sk"@ || t == "svk"@ || t == "slovak"@ || t == "slovensko"@ {
        Some("sk"@)
    } else if t == "hu"@ || t == "hun"@ || t == "hungarian"@ || t == "magyar"@ ||
        t == "magyarorszag"@ {
        Some("hu"@)
    } else if t == "ro"@ || t == "rou"@ || t == "rom"@ || t == "romanian"@ || t == "romania"@ {
        Some("ro"@)
    } else if t == "bg"@ || t == "bul"@ || t == "bulgarian"@ || t == "bulgaria"@ {
        Some("bg"@)
    } else if t == "rs"@ {
        Some("sr"@)
    } else {
        southeast_europe_token(t)
    }
}

/// The tokens for the Balkans, the Baltics and Greece; any other token is looked up further on.
pub open spec fn southeast_europe_token(t: Seq<char>) -> Option<Seq<char>> {
    if t == "srb"@ || t == "serbian"@ || t == "srbija"@ || t == "exyu"@ {
        Some("sr"@)
    } else if t == "hr"@ || t == "hrv"@ || t == "croatian"@ || t == "hrvatska"@ {
        Some("hr"@)
    } else if t == "ba"@ || t == "bih"@ || t == "bosnian"@ {
        Some("bs"@)
    } else if t == "si"@ || t == "svn"@ || t == "slovenian"@ {
        Some("sl"@)
    } else if t == "al"@ || t == "alb"@ || t == "albanian"@ || t == "shqip"@ {
        Some("sq"@)
    } else if t == "mk"@ || t == "mkd"@ || t == "macedonian"@ {
        Some("mk"@)
    } else if t == "lt"@ || t == "lithuanian"@ {
        Some("lt"@)
    } else if t == "lv"@ || t == "latvian"@ {
        Some("lv"@)
    } else if t == "ee"@ || t == "est"@ || t == "estonian"@ {
        Some("et"@)
    } else if t == "gr"@ || t == "ell"@ || t == "gre"@ || t == "greek"@ || t == "greece"@ ||
        t == "ellada"@ || t == "hellas"@ {
        Some("el"@)
    } else {
        middle_east_token(t)
    }
}

/// The tokens for the Middle East and central Asia; any other token is looked up further on.
pub open spec fn middle_east_token(t: Seq<char>) -> Option<Seq<char>> {
    if t == "il"@ || t == "heb"@ || t == "hebrew"@ || t == "israel"@ {
        Some("he"@)
    } else if t == "ir"@ || t == "fa"@ || t == "fas"@ || t == "per"@ || t == "farsi"@ ||
        t == "persian"@ || t == "iran"@ {
        Some("fa"@)
    } else if t == "tr"@ || t == "tur"@ || t == "turkish"@ || t == "turkiye"@ || t == "turkce"@ {
        Some("tr"@)
    } else if t == "kurdish"@ || t == "kurdi"@ || t == "kurd"@ {
        Some("ku"@)
    } else if t == "az"@ || t == "aze"@ || t == "azeri"@ {
        Some("az"@)
    } else if t == "ge"@ || t == "geo"@ || t == "georgian"@ {
        Some("ka"@)
    } else if t == "am"@ || t == "arm"@ || t == "armenian"@ {
        Some("hy"@)
    } else if t == "kz"@ || t == "kaz"@ || t == "kazakh"@ {
        Some("kk"@)
    } else if t == "uz"@ || t == "uzbek"@ {
        Some("uz"@)
    } else if t == "af"@ || t == "pashto"@ || t == "afghan"@ {
        Some("ps"@)
    } else {
        asia_africa_token(t)
    }
}

/// The tokens for south, east and southeast Asia, and Africa; any other token is looked up further on.
pub open spec fn asia_africa_token(t: Seq<char>) -> Option<Seq<char>> {
    if t == "hi"@ || t == "hin"@ || t == "hindi"@ || t == "in"@ || t == "ind"@ ||
        t == "india"@ || t == "desi"@ {
        Some("hi"@)
    } else if t == "pk"@ || t == "urdu"@ || t == "pakistan"@ {
        Some("ur"@)
    } else if t == "bd"@ || t == "ben"@ || t == "bengali"@ || t == "bangla"@ {
        Some("bn"@)
    } else if t == "tamil"@ || t == "tam"@ {
        Some("ta"@)
    } else if t == "telugu"@ || t == "tel"@ {
        Some("te"@)
    } else if t == "malayalam"@ {
        Some("ml"@)
    } else if t == "kannada"@ {
        Some("kn"@)
    } else if t == "marathi"@ {
        Some("mr"@)
    } else if t == "punjabi"@ {
        Some("pa"@)
    } else if t == "gujarati"@ {
        Some("gu"@)
    } else if t == "np"@ || t == "nepali"@ {
        Some("ne"@)
    } else if t == "sinhala"@ {
        Some("si"@)
    } else if t == "cn"@ || t == "chi"@ || t == "zho"@ || t == "chinese"@ || t == "china"@ ||
        t == "mandarin"@ || t == "cantonese"@ || t == "hk"@ || t == "tw"@ || t == "taiwan"@ {
        Some("zh"@)
    } else if t == "jp"@ || t == "jpn"@ || t == "japanese"@ || t == "japan"@ {
        Some("ja"@)
    } else if t == "kr"@ || t == "kor"@ || t == "korean"@ || t == "korea"@ {
        Some("ko"@)
    } else if t == "th"@ || t == "tha"@ || t == "thai"@ || t == "thailand"@ {
        Some("th"@)
    } else if t == "vn"@ || t == "vie"@ || t == "vietnamese"@ || t == "vietnam"@ {
        Some("vi"@)
    } else if t == "indonesian"@ || t == "indonesia"@ || t == "bahasa"@ {
        Some("id"@)
    } else if t == "malay"@ || t == "malaysia"@ {
        Some("ms"@)
    } else if t == "ph"@ || t == "phi"@ || t == "tagalog"@ || t == "filipino"@ {
        Some("tl"@)
    } else if t == "kh"@ || t == "khmer"@ {
        Some("km"@)
    } else if t == "lao"@ {
        Some("lo"@)
    } else if t == "mm"@ || t == "burmese"@ {
        Some("my"@)
    } else if t == "afrikaans"@ {
        Some("af"@)
    } else if t == "swahili"@ || t == "ke"@ || t == "kenya"@ {
        Some("sw"@)
    } else if t == "amharic"@ {
        Some("am"@)
    } else if t == "somali"@ {
        Some("so"@)
    } else if t == "ng"@ || t == "nigeria"@ {
        Some("en"@)
    } else {
        None
    }
}

fn lookup_english(t: &Vec<char>) -> (r: Option<&'static str>)
    ensures
        str_option(r) == english_token(t@),
{
    if str_eq(t, "en") || str_eq(t, "eng") || str_eq(t, "english") || str_eq(t, "anglais") ||
        str_eq(t, "uk") || str_eq(t, "gb") || str_eq(t, "gbr") || str_eq(t, "britain") ||
        str_eq(t, "british") || str_eq(t, "us") || str_eq(t, "usa") || str_eq(t, "america") ||
        str_eq(t, "american") || str_eq(t, "au") || str_eq(t, "aus") ||
        str_eq(t, "australia") || str_eq(t, "nz") || str_eq(t, "newzealand") ||
        str_eq(t, "ie") || str_eq(t, "irl") || str_eq(t, "ireland") || str_eq(t, "irish") ||
        str_eq(t, "za") || str_eq(t, "ca") || str_eq(t, "can") || str_eq(t, "canada") {
        return Some("en");
    }
    lookup_arabic(t)
}

fn lookup_arabic(t: &Vec<char>) -> (r: Option<&'static str>)
    ensures
        str_option(r) == arabic_token(t@),
{
    if str_eq(t, "ar") || str_eq(t, "ara") || str_eq(t, "arabic") || str_eq(t, "arab") ||
        str_eq(t, "arabia") || str_eq(t, "sa") || str_eq(t, "ksa") || str_eq(t, "ae") ||
        str_eq(t, "uae") || str_eq(t, "eg") || str_eq(t, "egypt") || str_eq(t, "ma") ||
        str_eq(t, "dz") || str_eq(t, "tn") || str_eq(t, "iq") || str_eq(t, "jo") ||
        str_eq(t, "kw") || str_eq(t, "qa") || str_eq(t, "lb") || str_eq(t, "ly") ||
        str_eq(t, "om") || str_eq(t, "ye") || str_eq(t, "sy") || str_eq(t, "bh") ||
        str_eq(t, "sd") || str_eq(t, "mar") || str_eq(t, "morocco") || str_eq(t, "algeria") {
        return Some("ar");
    }
    lookup_romance(t)
}

fn lookup_romance(t: &Vec<char>) -> (r: Option<&'static str>)
    ensures
        str_option(r) == romance_token(t@),
{
    if str_eq(t, "fr") || str_eq(t, "fra") || str_eq(t, "fre") || str_eq(t, "french") ||
        str_eq(t, "francais") || str_eq(t, "france") || str_eq(t, "vf") ||
        str_eq(t, "vostfr") || str_eq(t, "vfq") || str_eq(t, "quebec") {
        return Some("fr");
    }
    if str_eq(t, "es") || str_eq(t, "esp") || str_eq(t, "spa") || str_eq(t, "spanish") ||
        str_eq(t, "espanol") || str_eq(t, "spain") || str_eq(t, "espana") ||
        str_eq(t, "latino") || str_eq(t, "lat") || str_eq(t, "latin") || str_eq(t, "mx") ||
        str_eq(t, "mex") || str_eq(t, "mexico") || str_eq(t, "arg") ||
        str_eq(t, "argentina") || str_eq(t, "chile") || str_eq(t, "colombia") ||
        str_eq(t, "peru") || str_eq(t, "venezuela") || str_eq(t, "castellano") {
        return Some("es");
    }
    if str_eq(t, "it") || str_eq(t, "ita") || str_eq(t, "italian") || str_eq(t, "italiano") ||
        str_eq(t, "italy") || str_eq(t, "italia") {
        return Some("it");
    }
    if str_eq(t, "pt") || str_eq(t, "por") || str_eq(t, "portuguese") ||
        str_eq(t, "portugues") || str_eq(t, "portugal") || str_eq(t, "br") ||
        str_eq(t, "bra") || str_eq(t, "brazil") || str_eq(t, "brasil") {
        return Some("pt");
    }
    lookup_germanic(t)
}

fn lookup_germanic(t: &Vec<char>) -> (r: Option<&'static str>)
    ensures
        str_option(r) == germanic_token(t@),
{
    if str_eq(t, "de") || str_eq(t, "deu") || str_eq(t, "ger") || str_eq(t, "german") ||
        str_eq(t, "deutsch") || str_eq(t, "germany") || str_eq(t, "deutschland") ||
        str_eq(t, "at") || str_eq(t, "aut") || str_eq(t, "austria") || str_eq(t, "osterreich") {
        return Some("de");
    }
    if str_eq(t, "nl") || str_eq(t, "nld") || str_eq(t, "dut") || str_eq(t, "dutch") ||
        str_eq(t, "nederlands") || str_eq(t, "holland") || str_eq(t, "netherlands") ||
        str_eq(t, "nederland") {
        return Some("nl");
    }
    if str_eq(t, "se") || str_eq(t, "swe") || str_eq(t, "sv") || str_eq(t, "swedish") ||
        str_eq(t, "sverige") {
        return Some("sv");
    }
    if str_eq(t, "no") || str_eq(t, "nor") || str_eq(t, "norwegian") || str_eq(t, "norge") {
        return Some("no");
    }
    if str_eq(t, "dk") || str_eq(t, "dan") || str_eq(t, "da") || str_eq(t, "danish") ||
        str_eq(t, "danmark") {
        return Some("da");
    }
    if str_eq(t, "fi") || str_eq(t, "fin") || str_eq(t, "finnish") || str_eq(t, "suomi") {
        return Some("fi");
    }
    if str_eq(t, "is") || str_eq(t, "isl") || str_eq(t, "iceland") || str_eq(t, "icelandic") {
        return Some("is");
    }
    lookup_central_europe(t)
}

fn lookup_central_europe(t: &Vec<char>) -> (r: Option<&'static str>)
    ensures
        str_option(r) == central_europe_token(t@),
{
    if str_eq(t, "ru") || str_eq(t, "rus") || str_eq(t, "russian") || str_eq(t, "russia") {
        return Some("ru");
    }
    if str_eq(t, "ukr") || str_eq(t, "ukraine") || str_eq(t, "ukrainian") {
        return Some("uk");
    }
    if str_eq(t, "pl") || str_eq(t, "pol") || str_eq(t, "polish") || str_eq(t, "polska") {
        return Some("pl");
    }
    if str_eq(t, "cz") || str_eq(t, "cze") || str_eq(t, "ces") || str_eq(t, "czech") ||
        str_eq(t, "cesko") {
        return Some("cs");
    }
    if str_eq(t, "sk") || str_eq(t, "svk") || str_eq(t, "slovak") || str_eq(t, "slovensko") {
        return Some("sk");
    }
    if str_eq(t, "hu") || str_eq(t, "hun") || str_eq(t, "hungarian") || str_eq(t, "magyar") ||
        str_eq(t, "magyarorszag") {
        return Some("hu");
    }
    if str_eq(t, "ro") || str_eq(t, "rou") || str_eq(t, "rom") || str_eq(t, "romanian") ||
        str_eq(t, "romania") {
        return Some("ro");
    }
    if str_eq(t, "bg") || str_eq(t, "bul") || str_eq(t, "bulgarian") || str_eq(t, "bulgaria") {
        return Some("bg");
    }
    if str_eq(t, "rs") {
        return Some("sr");
    }
    lookup_southeast_europe(t)
}

fn lookup_southeast_europe(t: &Vec<char>) -> (r: Option<&'static str>)
    ensures
        str_option(r) == southeast_europe_token(t@),
{
    if str_eq(t, "srb") || str_eq(t, "serbian") || str_eq(t, "srbija") || str_eq(t, "exyu") {
        return Some("sr");
    }
    if str_eq(t, "hr") || str_eq(t, "hrv") || str_eq(t, "croatian") || str_eq(t, "hrvatska") {
        return Some("hr");
    }
    if str_eq(t, "ba") || str_eq(t, "bih") || str_eq(t, "bosnian") {
        return Some("bs");
    }
    if str_eq(t, "si") || str_eq(t, "svn") || str_eq(t, "slovenian") {
        return Some("sl");
    }
    if str_eq(t, "al") || str_eq(t, "alb") || str_eq(t, "albanian") || str_eq(t, "shqip") {
        return Some("sq");
    }
    if str_eq(t, "mk") || str_eq(t, "mkd") || str_eq(t, "macedonian") {
        return Some("mk");
    }
    if str_eq(t, "lt") || str_eq(t, "lithuanian") {
        return Some("lt");
    }
    if str_eq(t, "lv") || str_eq(t, "latvian") {
        return Some("lv");
    }
    if str_eq(t, "ee") || str_eq(t, "est") || str_eq(t, "estonian") {
        return Some("et");
    }
    if str_eq(t, "gr") || str_eq(t, "ell") || str_eq(t, "gre") || str_eq(t, "greek") ||
        str_eq(t, "greece") || str_eq(t, "ellada") || str_eq(t, "hellas") {
        return Some("el");
    }
    lookup_middle_east(t)
}

fn lookup_middle_east(t: &Vec<char>) -> (r: Option<&'static str>)
    ensures
        str_option(r) == middle_east_token(t@),
{
    if str_eq(t, "il") || str_eq(t, "heb") || str_eq(t, "hebrew") || str_eq(t, "israel") {
        return Some("he");
    }
    if str_eq(t, "ir") || str_eq(t, "fa") || str_eq(t, "fas") || str_eq(t, "per") ||
        str_eq(t, "farsi") || str_eq(t, "persian") || str_eq(t, "iran") {
        return Some("fa");
    }
    if str_eq(t, "tr") || str_eq(t, "tur") || str_eq(t, "turkish") || str_eq(t, "turkiye") ||
        str_eq(t, "turkce") {
        return Some("tr");
    }
    if str_eq(t, "kurdish") || str_eq(t, "kurdi") || str_eq(t, "kurd") {
        return Some("ku");
    }
    if str_eq(t, "az") || str_eq(t, "aze") || str_eq(t, "azeri") {
        return Some("az");
    }
    if str_eq(t, "ge") || str_eq(t, "geo") || str_eq(t, "georgian") {
        return Some("ka");
    }
    if str_eq(t, "am") || str_eq(t, "arm") || str_eq(t, "armenian") {
        return Some("hy");
    }
    if str_eq(t, "kz") || str_eq(t, "kaz") || str_eq(t, "kazakh") {
        return Some("kk");
    }
    if str_eq(t, "uz") || str_eq(t, "uzbek") {
        return Some("uz");
    }
    if str_eq(t, "af") || str_eq(t, "pashto") || str_eq(t, "afghan") {
        return Some("ps");
    }
    lookup_asia_africa(t)
}

fn lookup_asia_africa(t: &Vec<char>) -> (r: Option<&'static str>)
    ensures
        str_option(r) == asia_africa_token(t@),
{
    if str_eq(t, "hi") || str_eq(t, "hin") || str_eq(t, "hindi") || str_eq(t, "in") ||
        str_eq(t, "ind") || str_eq(t, "india") || str_eq(t, "desi") {
        return Some("hi");
    }
    if str_eq(t, "pk") || str_eq(t, "urdu") || str_eq(t, "pakistan") {
        return Some("ur");
    }
    if str_eq(t, "bd") || str_eq(t, "ben") || str_eq(t, "bengali") || str_eq(t, "bangla") {
        return Some("bn");
    }
    if str_eq(t, "tamil") || str_eq(t, "tam") {
        return Some("ta");
    }
    if str_eq(t, "telugu") || str_eq(t, "tel") {
        return Some("te");
    }
    if str_eq(t, "malayalam") {
        return Some("ml");
    }
    if str_eq(t, "kannada") {
        return Some("kn");
    }
    if str_eq(t, "marathi") {
        return Some("mr");
    }
    if str_eq(t, "punjabi") {
        return Some("pa");
    }
    if str_eq(t, "gujarati") {
        return Some("gu");
    }
    if str_eq(t, "np") || str_eq(t, "nepali") {
        return Some("ne");
    }
    if str_eq(t, "sinhala") {
        return Some("si");
    }
    if str_eq(t, "cn") || str_eq(t, "chi") || str_eq(t, "zho") || str_eq(t, "chinese") ||
        str_eq(t, "china") || str_eq(t, "mandarin") || str_eq(t, "cantonese") ||
        str_eq(t, "hk") || str_eq(t, "tw") || str_eq(t, "taiwan") {
        return Some("zh");
    }
    if str_eq(t, "jp") || str_eq(t, "jpn") || str_eq(t, "japanese") || str_eq(t, "japan") {
        return Some("ja");
    }
    if str_eq(t, "kr") || str_eq(t, "kor") || str_eq(t, "korean") || str_eq(t, "korea") {
        return Some("ko");
    }
    if str_eq(t, "th") || str_eq(t, "tha") || str_eq(t, "thai") || str_eq(t, "thailand") {
        return Some("th");
    }
    if str_eq(t, "vn") || str_eq(t, "vie") || str_eq(t, "vietnamese") || str_eq(t, "vietnam") {
        return Some("vi");
    }
    if str_eq(t, "indonesian") || str_eq(t, "indonesia") || str_eq(t, "bahasa") {
        return Some("id");
    }
    if str_eq(t, "malay") || str_eq(t, "malaysia") {
        return Some("ms");
    }
    if str_eq(t, "ph") || str_eq(t, "phi") || str_eq(t, "tagalog") || str_eq(t, "filipino") {
        return Some("tl");
    }
    if str_eq(t, "kh") || str_eq(t, "khmer") {
        return Some("km");
    }
    if str_eq(t, "lao") {
        return Some("lo");
    }
    if str_eq(t, "mm") || str_eq(t, "burmese") {
        return Some("my");
    }
    if str_eq(t, "afrikaans") {
        return Some("af");
    }
    if str_eq(t, "swahili") || str_eq(t, "ke") || str_eq(t, "kenya") {
        return Some("sw");
    }
    if str_eq(t, "amharic") {
        return Some("am");
    }
    if str_eq(t, "somali") {
        return Some("so");
    }
    if str_eq(t, "ng") || str_eq(t, "nigeria") {
        return Some("en");
    }
    None
}
/// The language a token names once it is cleaned: its diacritics folded, lower-cased,
/// and everything but letters and digits dropped.
pub open spec fn token_language(token: Seq<char>) -> Option<Seq<char>> {
    english_token(keep_alnum(unicode_lowercase(fold(token))))
}

fn lookup(token: &str) -> (r: Option<&'static str>)
    ensures
        str_option(r) == token_language(token@),
{
    let folded = fold_diacritics(token);
    let lower = to_lowercase(folded.as_str());
    let v = chars_of(lower.as_str());
    let cleaned = alnum_only(&v, 0, v.len());
    assert(v@.subrange(0, v@.len() as int) =~= v@);
    lookup_english(&cleaned)
}


// ---------------------------------------------------------------------------------------
// The script a name is written in.
// ---------------------------------------------------------------------------------------

/// The number of scripts told apart from Latin.
pub const SCRIPTS: usize = 14;

/// Which of the non-Latin scripts `c` belongs to, by code point: 0 Arabic, 1 Hebrew,
/// 2 Cyrillic, 3 Greek, 4 Armenian, 5 Georgian, 6 Devanagari, 7 Bengali, 8 Tamil, 9 Thai,
/// 10 Ethiopic, 11 kana, 12 Hangul, 13 Han; -1 for anything else.
pub open spec fn script_of(c: char) -> int {
    let n = c as u32;
    if (0x0600 <= n <= 0x06FF) || (0x0750 <= n <= 0x077F) || (0xFB50 <= n <= 0xFDFF) || (0xFE70
        <= n <= 0xFEFF) {
        0
    } else if 0x0590 <= n <= 0x05FF {
        1
    } else if 0x0400 <= n <= 0x04FF {
        2
    } else if 0x0370 <= n <= 0x03FF {
        3
    } else if 0x0530 <= n <= 0x058F {
        4
    } else if 0x10A0 <= n <= 0x10FF {
        5
    } else if 0x0900 <= n <= 0x097F {
        6
    } else if 0x0980 <= n <= 0x09FF {
        7
    } else if 0x0B80 <= n <= 0x0BFF {
        8
    } else if 0x0E00 <= n <= 0x0E7F {
        9
    } else if 0x1200 <= n <= 0x137F {
        10
    } else if 0x3040 <= n <= 0x30FF {
        11
    } else if (0xAC00 <= n <= 0xD7AF) || (0x1100 <= n <= 0x11FF) {
        12
    } else if (0x4E00 <= n <= 0x9FFF) || (0x3400 <= n <= 0x4DBF) {
        13
    } else {
        -1
    }
}

/// The language a script stands for.
pub open spec fn script_code(k: int) -> Seq<char> {
    if k == 0 {
        "ar"@
    } else if k == 1 {
        "he"@
    } else if k == 2 {
        "ru"@
    } else if k == 3 {
        "el"@
    } else if k == 4 {
        "hy"@
    } else if k == 5 {
        "ka"@
    } else if k == 6 {
        "hi"@
    } else if k == 7 {
        "bn"@
    } else if k == 8 {
        "ta"@
    } else if k == 9 {
        "th"@
    } else if k == 10 {
        "am"@
    } else if k == 11 {
        "ja"@
    } else if k == 12 {
        "ko"@
    } else {
        "zh"@
    }
}

/// How many letters of `s` belong to script `k` (-1 counting the Latin and other
/// letters).
pub open spec fn script_count(s: Seq<char>, k: int) -> nat
    decreases s.len(),
{
    if s.len() == 0 {
        0
    } else {
        script_count(s.drop_last(), k) + if alphabetic(s.last()) && script_of(s.last()) == k {
            1nat
        } else {
            0nat
        }
    }
}

pub proof fn lemma_script_count_bound(s: Seq<char>, k: int)
    ensures
        script_count(s, k) <= s.len(),
    decreases s.len(),
{
    if s.len() > 0 {
        lemma_script_count_bound(s.drop_last(), k);
    }
}

/// The script among the first `n` with the most letters in `s`, the earliest on a tie.
pub open spec fn leading_script(s: Seq<char>, n: int) -> int
    decreases n,
{
    if n <= 1 {
        0
    } else {
        let b = leading_script(s, n - 1);
        if script_count(s, n - 1) > script_count(s, b) {
            n - 1
        } else {
            b
        }
    }
}

pub proof fn lemma_leading_script_range(s: Seq<char>, n: int)
    ensures
        0 <= leading_script(s, n) < if n <= 1 { 1 } else { n },
    decreases n,
{
    if n > 1 {
        lemma_leading_script_range(s, n - 1);
    }
}

/// The language of the script most of the letters of `s` are written in: the leading
/// non-Latin script, when it has more than half as many letters as the Latin ones.
pub open spec fn spec_script_language(s: Seq<char>) -> Option<Seq<char>> {
    let b = leading_script(s, SCRIPTS as int);
    let n = script_count(s, b);
    if n > 0 && 2 * n > script_count(s, -1) {
        Some(script_code(b))
    } else {
        None
    }
}

fn script_index(c: char) -> (r: i8)
    ensures
        r == script_of(c),
{
    let n = c as u32;
    if (0x0600 <= n && n <= 0x06FF) || (0x0750 <= n && n <= 0x077F) || (0xFB50 <= n && n
        <= 0xFDFF) || (0xFE70 <= n && n <= 0xFEFF) {
        0
    } else if 0x0590 <= n && n <= 0x05FF {
        1
    } else if 0x0400 <= n && n <= 0x04FF {
        2
    } else if 0x0370 <= n && n <= 0x03FF {
        3
    } else if 0x0530 <= n && n <= 0x058F {
        4
    } else if 0x10A0 <= n && n <= 0x10FF {
        5
    } else if 0x0900 <= n && n <= 0x097F {
        6
    } else if 0x0980 <= n && n <= 0x09FF {
        7
    } else if 0x0B80 <= n && n <= 0x0BFF {
        8
    } else if 0x0E00 <= n && n <= 0x0E7F {
        9
    } else if 0x1200 <= n && n <= 0x137F {
        10
    } else if 0x3040 <= n && n <= 0x30FF {
        11
    } else if (0xAC00 <= n && n <= 0xD7AF) || (0x1100 <= n && n <= 0x11FF) {
        12
    } else if (0x4E00 <= n && n <= 0x9FFF) || (0x3400 <= n && n <= 0x4DBF) {
        13
    } else {
        -1
    }
}

fn script_name(k: usize) -> (r: &'static str)
    ensures
        r@ == script_code(k as int),
{
    if k == 0 {
        "ar"
    } else if k == 1 {
        "he"
    } else if k == 2 {
        "ru"
    } else if k == 3 {
        "el"
    } else if k == 4 {
        "hy"
    } else if k == 5 {
        "ka"
    } else if k == 6 {
        "hi"
    } else if k == 7 {
        "bn"
    } else if k == 8 {
        "ta"
    } else if k == 9 {
        "th"
    } else if k == 10 {
        "am"
    } else if k == 11 {
        "ja"
    } else if k == 12 {
        "ko"
    } else {
        "zh"
    }
}

/// The language a run of text is written in, judged by its script: a name in Arabic or
/// Han characters is not English whatever it is tagged. Only counts when the script's
/// letters outnumber half the Latin ones, so one stray glyph does not outvote a name.
fn script_language(text: &Vec<char>) -> (r: Option<&'static str>)
    ensures
        str_option(r) == spec_script_language(text@),
{
    let mut counts: Vec<usize> = Vec::new();
    while counts.len() < SCRIPTS
        invariant
            counts.len() <= SCRIPTS,
            forall|j: int| 0 <= j < counts.len() ==> counts@[j] == 0,
        decreases SCRIPTS - counts.len(),
    {
        counts.push(0);
    }
    let mut latin: usize = 0;
    let mut i: usize = 0;
    while i < text.len()
        invariant
            i <= text.len(),
            counts.len() == SCRIPTS,
            forall|j: int| 0 <= j < SCRIPTS ==> #[trigger] counts@[j] == script_count(text@.take(i as int), j),
            latin == script_count(text@.take(i as int), -1),
        decreases text.len() - i,
    {
        let ghost before = text@.take(i as int);
        let ghost after = text@.take(i + 1);
        assert(after.drop_last() =~= before);
        let c = text[i];
        if is_alphabetic(c) {
            let k = script_index(c);
            if k < 0 {
                proof {
                    lemma_script_count_bound(before, -1);
                }
                latin = latin + 1;
            } else {
                let ku = k as usize;
                proof {
                    lemma_script_count_bound(before, ku as int);
                }
                let n = counts[ku];
                counts.set(ku, n + 1);
            }
        }
        i += 1;
    }
    assert(text@.take(text@.len() as int) =~= text@);
    let mut best: usize = 0;
    let mut j: usize = 1;
    while j < SCRIPTS
        invariant
            1 <= j <= SCRIPTS,
            counts.len() == SCRIPTS,
            forall|m: int| 0 <= m < SCRIPTS ==> #[trigger] counts@[m] == script_count(text@, m),
            best == leading_script(text@, j as int),
            best < j,
        decreases SCRIPTS - j,
    {
        if counts[j] > counts[best] {
            best = j;
        }
        j += 1;
    }
    let n = counts[best];
    if n > 0 && (n as u128) * 2 > latin as u128 {
        Some(script_name(best))
    } else {
        None
    }
}

// ---------------------------------------------------------------------------------------
// Tags in a name, and the words of a group title.
// ---------------------------------------------------------------------------------------

pub open spec fn opens_tag(c: char) -> bool {
    c == '(' || c == '[' || c == '{' || c == '|'
}

pub open spec fn closes_tag(c: char) -> bool {
    c == ')' || c == ']' || c == '}'
}

/// `tags` with the segment's trimmed, lower-cased text added, when it holds any.
pub open spec fn with_segment(tags: Seq<Seq<char>>, segment: Seq<char>) -> Seq<Seq<char>> {
    if trim(segment).len() > 0 {
        tags.push(unicode_lowercase(trim(segment)))
    } else {
        tags
    }
}

/// Where the scan of `s` for bracketed and pipe-delimited tags stands after its last
/// character: the tags found, the segment being read, and whether it is inside a tag.
pub open spec fn tag_scan(s: Seq<char>) -> (Seq<Seq<char>>, Seq<char>, bool)
    decreases s.len(),
{
    if s.len() == 0 {
        (Seq::empty(), Seq::empty(), false)
    } else {
        let (tags, segment, inside) = tag_scan(s.drop_last());
        let c = s.last();
        if opens_tag(c) {
            (if inside { with_segment(tags, segment) } else { tags }, Seq::empty(), true)
        } else if closes_tag(c) {
            (with_segment(tags, segment), Seq::empty(), false)
        } else if inside {
            (tags, segment.push(c), true)
        } else {
            (tags, segment, false)
        }
    }
}

/// The language tokens a name carries: its leading country or language prefix, then
/// every segment inside brackets or between pipes, trimmed and lower-cased. Not every
/// word: "The German Doctor" is an English-language film.
pub open spec fn name_tags(name: Seq<char>) -> Seq<Seq<char>> {
    let prefix = match spec_split_country(name).1 {
        Some(code) => seq![unicode_lowercase(code)],
        None => Seq::empty(),
    };
    let (tags, segment, inside) = tag_scan(name);
    prefix + if inside {
        with_segment(tags, segment)
    } else {
        tags
    }
}

proof fn lemma_with_segment_prefix(p: Seq<Seq<char>>, tags: Seq<Seq<char>>, segment: Seq<char>)
    ensures
        with_segment(p + tags, segment) == p + with_segment(tags, segment),
{
    if trim(segment).len() > 0 {
        assert((p + tags).push(unicode_lowercase(trim(segment))) =~= p + tags.push(
            unicode_lowercase(trim(segment)),
        ));
    }
}

fn push_segment(out: &mut Vec<String>, segment: &Vec<char>)
    ensures
        strings_view(final(out)@) == with_segment(strings_view(old(out)@), segment@),
{
    let t = trimmed(segment);
    if t.len() > 0 {
        let s = string_of(t.as_slice());
        let low = to_lowercase(s.as_str());
        let ghost before = strings_view(out@);
        out.push(low);
        assert(strings_view(out@) =~= before.push(low@));
    }
}

fn tagged_tokens(name: &str) -> (r: Vec<String>)
    ensures
        strings_view(r@) == name_tags(name@),
{
    let mut out: Vec<String> = Vec::new();
    let (_, code) = split_country_prefix(name);
    match code {
        Some(c) => {
            let low = to_lowercase(c.as_str());
            out.push(low);
            assert(strings_view(out@) =~= seq![low@]);
        },
        None => {
            assert(strings_view(out@) =~= Seq::<Seq<char>>::empty());
        },
    }
    let ghost prefix = strings_view(out@);
    let v = chars_of(name);
    let mut segment: Vec<char> = Vec::new();
    let mut inside = false;
    let mut i: usize = 0;
    assert(prefix + tag_scan(v@.take(0)).0 =~= prefix);
    while i < v.len()
        invariant
            i <= v.len(),
            strings_view(out@) == prefix + tag_scan(v@.take(i as int)).0,
            segment@ == tag_scan(v@.take(i as int)).1,
            inside == tag_scan(v@.take(i as int)).2,
        decreases v.len() - i,
    {
        let ghost tags = tag_scan(v@.take(i as int)).0;
        assert(v@.take(i + 1).drop_last() =~= v@.take(i as int));
        let c = v[i];
        if c == '(' || c == '[' || c == '{' || c == '|' {
            if inside {
                push_segment(&mut out, &segment);
                proof {
                    lemma_with_segment_prefix(prefix, tags, segment@);
                }
            }
            segment = Vec::new();
            inside = true;
        } else if c == ')' || c == ']' || c == '}' {
            push_segment(&mut out, &segment);
            proof {
                lemma_with_segment_prefix(prefix, tags, segment@);
            }
            segment = Vec::new();
            inside = false;
        } else if inside {
            segment.push(c);
        }
        i += 1;
    }
    assert(v@.take(v@.len() as int) =~= v@);
    if inside {
        let ghost tags = tag_scan(v@).0;
        push_segment(&mut out, &segment);
        proof {
            lemma_with_segment_prefix(prefix, tags, segment@);
        }
    }
    out
}

/// The non-empty pieces, lower-cased.
pub open spec fn nonempty_lowered(ps: Seq<Seq<char>>) -> Seq<Seq<char>>
    decreases ps.len(),
{
    if ps.len() == 0 {
        Seq::empty()
    } else {
        let rest = nonempty_lowered(ps.drop_last());
        if ps.last().len() > 0 {
            rest.push(unicode_lowercase(ps.last()))
        } else {
            rest
        }
    }
}

/// Every word of a group title, lower-cased: a group exists to categorize, so unlike a
/// programme name it is safe to read word by word.
pub open spec fn group_words(group: Seq<char>) -> Seq<Seq<char>> {
    nonempty_lowered(split_by(group, not_alnum()))
}

/// The pieces of `s` between characters that are not letters or digits.
fn pieces_of(s: &str) -> (r: Vec<String>)
    ensures
        strings_view(r@) == split_by(s@, not_alnum()),
{
    let v = chars_of(s);
    let ps = alnum_pieces(&v);
    let ghost pieces = split_by(v@, not_alnum());
    let mut out: Vec<String> = Vec::new();
    let mut k: usize = 0;
    while k < ps.len()
        invariant
            k <= ps.len() == pieces.len(),
            pieces == split_by(v@, not_alnum()),
            forall|j: int|
                0 <= j < ps@.len() ==> {
                    &&& (#[trigger] ps@[j]).0 <= ps@[j].1 <= v.len()
                    &&& v@.subrange(ps@[j].0 as int, ps@[j].1 as int) == pieces[j]
                },
            strings_view(out@) == pieces.take(k as int),
        decreases ps.len() - k,
    {
        let (a, b) = ps[k];
        let w = slice(&v, a, b);
        let piece = string_of(w.as_slice());
        assert(piece@ == pieces[k as int]);
        let ghost before = strings_view(out@);
        out.push(piece);
        assert(strings_view(out@) =~= before.push(piece@));
        assert(pieces.take(k + 1) =~= pieces.take(k as int).push(pieces[k as int]));
        k += 1;
    }
    assert(pieces.take(pieces.len() as int) =~= pieces);
    out
}

fn group_tokens(group: &str) -> (r: Vec<String>)
    ensures
        strings_view(r@) == group_words(group@),
{
    let ps = pieces_of(group);
    let ghost pieces = strings_view(ps@);
    let mut out: Vec<String> = Vec::new();
    let mut k: usize = 0;
    while k < ps.len()
        invariant
            k <= ps.len(),
            pieces == strings_view(ps@),
            strings_view(out@) == nonempty_lowered(pieces.take(k as int)),
        decreases ps.len() - k,
    {
        assert(pieces.take(k + 1).drop_last() =~= pieces.take(k as int));
        assert(pieces[k as int] == ps@[k as int]@);
        let w = ps[k].as_str();
        let n = chars_of(w).len();
        if n > 0 {
            let low = to_lowercase(w);
            let ghost before = strings_view(out@);
            out.push(low);
            assert(strings_view(out@) =~= before.push(low@));
        }
        k += 1;
    }
    assert(pieces.take(pieces.len() as int) =~= pieces);
    out
}

/// The language the first token that names one names.
pub open spec fn first_language(ts: Seq<Seq<char>>) -> Option<Seq<char>>
    decreases ts.len(),
{
    if ts.len() == 0 {
        None
    } else {
        match token_language(ts[0]) {
            Some(code) => Some(code),
            None => first_language(ts.drop_first()),
        }
    }
}

fn first_hit(ts: &Vec<String>) -> (r: Option<&'static str>)
    ensures
        str_option(r) == first_language(strings_view(ts@)),
{
    let ghost all = strings_view(ts@);
    let mut k: usize = 0;
    assert(all.skip(0) =~= all);
    while k < ts.len()
        invariant
            k <= ts.len(),
            all == strings_view(ts@),
            first_language(all) == first_language(all.skip(k as int)),
        decreases ts.len() - k,
    {
        assert(all.skip(k as int)[0] == ts@[k as int]@);
        assert(all.skip(k as int).drop_first() =~= all.skip(k + 1));
        let hit = lookup(ts[k].as_str());
        if hit.is_some() {
            return hit;
        }
        k += 1;
    }
    assert(all.skip(k as int) =~= Seq::<Seq<char>>::empty());
    None
}

// ---------------------------------------------------------------------------------------
// Putting the signals together.
// ---------------------------------------------------------------------------------------

/// The language of an entry, from the most trustworthy signal that answers: what the
/// provider reports (`tvg-language`), read token by token; the script of the name; a
/// prefix or tag in the name; the script of the group title, then its words. `None`
/// when none of them says.
pub open spec fn spec_detect(name: Seq<char>, group: Option<Seq<char>>, reported: Option<Seq<char>>)
    -> Option<Seq<char>> {
    let said = match reported {
        Some(r) => first_language(split_by(r, not_alnum())),
        None => None,
    };
    if said is Some {
        said
    } else if spec_script_language(name) is Some {
        spec_script_language(name)
    } else if first_language(name_tags(name)) is Some {
        first_language(name_tags(name))
    } else {
        match group {
            Some(g) => if spec_script_language(g) is Some {
                spec_script_language(g)
            } else {
                first_language(group_words(g))
            },
            None => None,
        }
    }
}

/// Work out the language of one entry, or admit that nothing says. `reported` is the
/// provider's `tvg-language`, `group` its `group-title`.
pub fn detect(name: &str, group: Option<&str>, reported: Option<&str>) -> (r: Option<String>)
    ensures
        opt_view(r) == spec_detect(name@, str_option(group), str_option(reported)),
{
    if let Some(rep) = reported {
        let tokens = pieces_of(rep);
        if let Some(code) = first_hit(&tokens) {
            return Some(owned(code));
        }
    }
    let v = chars_of(name);
    if let Some(code) = script_language(&v) {
        return Some(owned(code));
    }
    let tags = tagged_tokens(name);
    if let Some(code) = first_hit(&tags) {
        return Some(owned(code));
    }
    if let Some(g) = group {
        let gv = chars_of(g);
        if let Some(code) = script_language(&gv) {
            return Some(owned(code));
        }
        let words = group_tokens(g);
        if let Some(code) = first_hit(&words) {
            return Some(owned(code));
        }
    }
    None
}

/// What the provider reports outright wins over everything else the entry says.
pub proof fn lemma_reported_language_wins(name: Seq<char>, group: Option<Seq<char>>, reported: Seq<char>)
    requires
        first_language(split_by(reported, not_alnum())) is Some,
    ensures
        spec_detect(name, group, Some(reported)) == first_language(split_by(reported, not_alnum())),
{
}

/// A name written in a non-Latin script is that script's language whatever its tags or
/// group say, unless the provider reported a language.
pub proof fn lemma_script_beats_tags(name: Seq<char>, group: Option<Seq<char>>)
    requires
        spec_script_language(name) is Some,
    ensures
        spec_detect(name, group, None) == spec_script_language(name),
{
}

/// An entry that says nothing stays unknown: with no report, a Latin name, no tag that
/// names a language and no group, the answer is `None` rather than a guess.
pub proof fn lemma_silence_is_unknown(name: Seq<char>)
    requires
        spec_script_language(name) is None,
        first_language(name_tags(name)) is None,
    ensures
        spec_detect(name, None, None) is None,
{
}

} // verus!
