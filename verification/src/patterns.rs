//! The regular expressions that recognise years, seasons, episodes and
//! release noise in file names.
use vstd::prelude::*;

verus! {

/// A four-digit year in round, square or curly brackets: `Persona (1966)`.
pub const YEAR_IN_BRACKETS: &'static str = r"(?:[\(\[\{])(\d{4})(?:[\)\]\}])";

/// A four-digit year between spaces or at either end: `Caché 2005`.
pub const YEAR_IN_SPACES: &'static str = r"(?:^|\s)(\d{4})(?:$|\s)";

/// Exactly four digits not followed by `p`, `x` (a resolution) or a digit.
pub const YEAR_ANYWHERE: &'static str = r"(?:^|\D)(\d{4})(?:$|[^pPxX\d])";

/// `S01E05`, any case.
pub const SEASON_EPISODE_NUMBER: &'static str = r"(?i)s\d{1,2}(?i)e\d+";

/// `E05` after white space, before white space or the end.
pub const EPISODE_NUMBER: &'static str = r"($|\s)(?i)e\d+($|\s)";

/// `1x05`, `12x3`.
pub const SEASON_EPISODE_X_FORMAT: &'static str = r"\d{1,2}x\d+";

/// `Season 1`, `season 01`, `S01`, `s1`.
pub const FOLDER_SEASON: &'static str = r"(?i)season\s*\d+|(?i)s\d{1,2}";

/// ` - 01 `, ` - 1 `, ` - 001`.
pub const DASH_NUMBER: &'static str = r"\s+-\s+0?\d{1,3}(?:\s+|$)";

/// `[01]`, `[CM01]`.
pub const BRACKETED_NUMBER: &'static str = r"\[(?:CM)?\d{1,3}\]";

/// `Ep. 01`, `Ep 01`, `ep.01`.
pub const EP_PREFIX: &'static str = r"(?i)ep\.?\s*\d+";

/// `SPECIAL`, `Special`, `special`.
pub const SPECIAL: &'static str = r"(?i)special";

/// Release noise (resolutions, codecs, rip types, release groups), in the
/// order they are tried.
pub open spec fn noise_patterns() -> Seq<Seq<char>> {
    seq![
        r"\d{3,5}(?i)p"@,
        r"\d{3,5}(?i)x\d{3,5}"@,
        r"($|\s)4K($|\s)"@,
        r"($|\s)6K($|\s)"@,
        r"($|\s)8K($|\s)"@,
        r"($|\s)HQ($|\s)"@,
        r"($|\s)UHD($|\s)"@,
        r"($|\s)HDR($|\s)"@,
        r"($|\s)SDR($|\s)"@,
        r"($|\s)TrueHD($|\s)"@,
        r"($|\s)x264($|\s)"@,
        r"($|\s)H 264($|\s)"@,
        r"($|\s)x265($|\s)"@,
        r"($|\s)H 265($|\s)"@,
        r"($|\s)AAC($|\s)"@,
        r"($|\s)AVC($|\s)"@,
        r"($|\s)DTS($|\s)"@,
        r"($|\s)HEVC($|\s)"@,
        r"($|\s)FLAC($|\s)"@,
        r"($|\s)WEBDL($|\s)"@,
        r"($|\s)WEB dl($|\s)"@,
        r"($|\s)WEBRip($|\s)"@,
        r"($|\s)BluRay($|\s)"@,
        r"($|\s)BRRip($|\s)"@,
        r"($|\s)BDRemux($|\s)"@,
        r"($|\s)REMUX($|\s)"@,
        r"($|\s)DVD($|\s)"@,
        r"($|\s)HDTV($|\s)"@,
        r"($|\s)REMASTERED($|\s)"@,
        r"($|\s)UPSCALED($|\s)"@,
        r"($|\s)Criterion Collection($|\s)"@,
        r"($|\s)AMZN($|\s)"@,
        r"($|\s)CINEFILE($|\s)"@,
        r"($|\s)FGT($|\s)"@,
        r"($|\s)USURY($|\s)"@,
        r"($|\s)YTS($|\s)"@,
        r"($|\s)SADPANDA($|\s)"@,
        r"($|\s)AMIABLE($|\s)"@,
        r"($|\s)SELENZEN($|\s)"@,
        r"($|\s)NAHOM($|\s)"@,
    ]
}

/// The release-noise patterns, as `noise_patterns` lists them.
pub fn noise_pattern_list() -> (r: Vec<&'static str>)
    ensures
        r@.map_values(|p: &str| p@) == noise_patterns(),
{
    let v: Vec<&'static str> = vec![
        r"\d{3,5}(?i)p",
        r"\d{3,5}(?i)x\d{3,5}",
        r"($|\s)4K($|\s)",
        r"($|\s)6K($|\s)",
        r"($|\s)8K($|\s)",
        r"($|\s)HQ($|\s)",
        r"($|\s)UHD($|\s)",
        r"($|\s)HDR($|\s)",
        r"($|\s)SDR($|\s)",
        r"($|\s)TrueHD($|\s)",
        r"($|\s)x264($|\s)",
        r"($|\s)H 264($|\s)",
        r"($|\s)x265($|\s)",
        r"($|\s)H 265($|\s)",
        r"($|\s)AAC($|\s)",
        r"($|\s)AVC($|\s)",
        r"($|\s)DTS($|\s)",
        r"($|\s)HEVC($|\s)",
        r"($|\s)FLAC($|\s)",
        r"($|\s)WEBDL($|\s)",
        r"($|\s)WEB dl($|\s)",
        r"($|\s)WEBRip($|\s)",
        r"($|\s)BluRay($|\s)",
        r"($|\s)BRRip($|\s)",
        r"($|\s)BDRemux($|\s)",
        r"($|\s)REMUX($|\s)",
        r"($|\s)DVD($|\s)",
        r"($|\s)HDTV($|\s)",
        r"($|\s)REMASTERED($|\s)",
        r"($|\s)UPSCALED($|\s)",
        r"($|\s)Criterion Collection($|\s)",
        r"($|\s)AMZN($|\s)",
        r"($|\s)CINEFILE($|\s)",
        r"($|\s)FGT($|\s)",
        r"($|\s)USURY($|\s)",
        r"($|\s)YTS($|\s)",
        r"($|\s)SADPANDA($|\s)",
        r"($|\s)AMIABLE($|\s)",
        r"($|\s)SELENZEN($|\s)",
        r"($|\s)NAHOM($|\s)",
    ];
    assert(v@.map_values(|p: &str| p@) =~= noise_patterns());
    v
}

} // verus!
