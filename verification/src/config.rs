//! The saved settings of the process filter and the path filter.

use vstd::prelude::*;

use crate::filter::{compiled, compiled_all, lists_allow, texts, FilterConfig, PathFilterConfig};
use crate::text::{trim_is_final, trim_text};

verus! {

/// How the keywords of a filter are to be taken. The settings file writes a mode in lower case.
#[derive(Debug, Clone, Copy, PartialEq, Eq, Structural)]
pub enum FilterModeDto {
    Off,
    Whitelist,
    Blacklist,
}

impl Default for FilterModeDto {
    fn default() -> (mode: FilterModeDto)
        ensures
            mode is Off,
    {
        FilterModeDto::Off
    }
}

/// The settings of one filter. The keywords are ignored in the mode `Off`; in the other modes they
/// are the whitelist or the blacklist.
#[derive(Debug)]
pub struct FilterConfigDto {
    pub mode: FilterModeDto,
    pub keywords: Vec<String>,
}

impl FilterConfigDto {
    /// The keywords of the whitelist that these settings stand for.
    pub open spec fn white(self) -> Seq<Seq<char>> {
        match self.mode {
            FilterModeDto::Whitelist => trimmed_keywords(texts(self.keywords@)),
            _ => Seq::empty(),
        }
    }

    /// The keywords of the blacklist that these settings stand for.
    pub open spec fn black(self) -> Seq<Seq<char>> {
        match self.mode {
            FilterModeDto::Blacklist => trimmed_keywords(texts(self.keywords@)),
            _ => Seq::empty(),
        }
    }

    /// These settings leave the filter off.
    pub open spec fn is_off(self) -> bool {
        self.mode is Off && self.keywords@.len() == 0
    }

    /// The whitelist and the blacklist that these settings stand for.
    fn to_lists(&self) -> (lists: (Vec<String>, Vec<String>))
        ensures
            texts(lists.0@) == self.white(),
            texts(lists.1@) == self.black(),
    {
        let none: Vec<String> = Vec::new();
        let lists = match self.mode {
            FilterModeDto::Off => (Vec::new(), none),
            FilterModeDto::Whitelist => (trim_keywords(self.keywords.as_slice()), none),
            FilterModeDto::Blacklist => (none, trim_keywords(self.keywords.as_slice())),
        };
        assert(texts(lists.0@) =~= self.white());
        assert(texts(lists.1@) =~= self.black());
        lists
    }
}

impl Clone for FilterConfigDto {
    fn clone(&self) -> (copy: FilterConfigDto)
        ensures
            copy.mode == self.mode,
            copy.keywords@ == self.keywords@,
    {
        let keywords = self.keywords.clone();
        assert(keywords@ =~= self.keywords@);
        FilterConfigDto { mode: self.mode, keywords }
    }
}

impl Default for FilterConfigDto {
    fn default() -> (dto: FilterConfigDto)
        ensures
            dto.is_off(),
    {
        FilterConfigDto { mode: FilterModeDto::Off, keywords: Vec::new() }
    }
}

/// All settings that are saved.
#[derive(Debug)]
pub struct AppConfig {
    pub process_filter: FilterConfigDto,
    pub path_filter: FilterConfigDto,
}

impl AppConfig {
    /// The filter on process names that the settings stand for. It is empty in the mode `Off` and
    /// without keywords, so that it need not look at the mode.
    pub fn to_process_filter(&self) -> (filter: FilterConfig)
        ensures
            filter.white() == self.process_filter.white(),
            filter.black() == self.process_filter.black(),
            self.process_filter.mode is Off ==> filter.white().len() == 0
                && filter.black().len() == 0,
            self.process_filter.mode is Whitelist ==> filter.white() == trimmed_keywords(
                texts(self.process_filter.keywords@),
            ) && filter.black().len() == 0,
            self.process_filter.mode is Blacklist ==> filter.black() == trimmed_keywords(
                texts(self.process_filter.keywords@),
            ) && filter.white().len() == 0,
    {
        let lists = self.process_filter.to_lists();
        FilterConfig::new(lists.0, lists.1)
    }

    /// The filter on paths that the settings stand for.
    pub fn to_path_filter(&self) -> (filter: PathFilterConfig)
        ensures
            filter.white() == self.path_filter.white(),
            filter.black() == self.path_filter.black(),
            self.path_filter.mode is Off ==> filter.white().len() == 0 && filter.black().len() == 0,
            self.path_filter.mode is Whitelist ==> filter.white() == trimmed_keywords(
                texts(self.path_filter.keywords@),
            ) && filter.black().len() == 0,
            self.path_filter.mode is Blacklist ==> filter.black() == trimmed_keywords(
                texts(self.path_filter.keywords@),
            ) && filter.white().len() == 0,
    {
        let lists = self.path_filter.to_lists();
        PathFilterConfig::new(lists.0, lists.1)
    }
}

impl Clone for AppConfig {
    fn clone(&self) -> (copy: AppConfig)
        ensures
            copy.process_filter.mode == self.process_filter.mode,
            copy.process_filter.keywords@ == self.process_filter.keywords@,
            copy.path_filter.mode == self.path_filter.mode,
            copy.path_filter.keywords@ == self.path_filter.keywords@,
    {
        AppConfig {
            process_filter: self.process_filter.clone(),
            path_filter: self.path_filter.clone(),
        }
    }
}

impl Default for AppConfig {
    fn default() -> (config: AppConfig)
        ensures
            config.process_filter.is_off(),
            config.path_filter.is_off(),
    {
        AppConfig {
            process_filter: FilterConfigDto::default(),
            path_filter: FilterConfigDto::default(),
        }
    }
}

/// The keywords without the white space around them, and without the blank ones.
pub open spec fn trimmed_keywords(raw: Seq<Seq<char>>) -> Seq<Seq<char>> {
    raw.map_values(|kw: Seq<char>| trim_text(kw)).filter(|kw: Seq<char>| kw.len() > 0)
}

/// One more keyword goes to the end of the trimmed ones, without the white space around it, unless
/// it is blank; of no keywords, none is left.
pub proof fn trimmed_keywords_push(raw: Seq<Seq<char>>, kw: Seq<char>)
    ensures
        trimmed_keywords(Seq::empty()).len() == 0,
        trimmed_keywords(raw.push(kw)) == if trim_text(kw).len() > 0 {
            trimmed_keywords(raw).push(trim_text(kw))
        } else {
            trimmed_keywords(raw)
        },
{
    let trim = |kw: Seq<char>| trim_text(kw);
    reveal(Seq::filter);
    assert(raw.push(kw).map_values(trim) =~= raw.map_values(trim).push(trim_text(kw)));
    assert(raw.map_values(trim).push(trim_text(kw)).drop_last() =~= raw.map_values(trim));
}

/// Removes the white space around each keyword, and the blank keywords.
pub fn trim_keywords(raw: &[String]) -> (keywords: Vec<String>)
    ensures
        texts(keywords@) == trimmed_keywords(texts(raw@)),
{
    let mut keywords: Vec<String> = Vec::new();
    let mut i: usize = 0;
    assert(texts(raw@).take(0) =~= Seq::empty());
    proof {
        reveal(Seq::filter);
        assert(texts(keywords@) =~= trimmed_keywords(texts(raw@).take(0)));
    }
    while i < raw.len()
        invariant
            i <= raw@.len(),
            texts(keywords@) == trimmed_keywords(texts(raw@).take(i as int)),
        decreases raw@.len() - i,
    {
        let ghost before = keywords@;
        let kw = raw[i].trim();
        proof {
            trimmed_keywords_push(texts(raw@).take(i as int), raw@[i as int]@);
            assert(texts(raw@).take(i + 1) =~= texts(raw@).take(i as int).push(raw@[i as int]@));
        }
        if !kw.is_empty() {
            let kept = kw.to_owned();
            keywords.push(kept);
            assert(texts(keywords@) =~= texts(before).push(kept@));
        }
        i += 1;
    }
    assert(texts(raw@).take(i as int) =~= texts(raw@));
    keywords
}

/// What came of reading the settings file.
#[derive(Debug)]
pub enum ConfigRead {
    /// There is no such file.
    Missing,
    /// The file is there and could not be read.
    Unreadable(String),
    /// The file was read, and is not what settings look like.
    Malformed(String),
    /// The settings in the file.
    Parsed(AppConfig),
}

/// The settings file is there and could not be read, for this reason.
#[derive(Debug)]
pub struct ConfigError {
    pub reason: String,
}

/// The settings to start with. A missing file and one that somebody spoiled stand for the default
/// settings, so that the program still starts; a file that cannot be read is an error.
pub fn load(read: ConfigRead) -> (r: Result<AppConfig, ConfigError>)
    ensures
        match read {
            ConfigRead::Parsed(config) => r == Ok::<AppConfig, ConfigError>(config),
            ConfigRead::Missing | ConfigRead::Malformed(_) => r matches Ok(config)
                && config.process_filter.is_off() && config.path_filter.is_off(),
            ConfigRead::Unreadable(reason) => r matches Err(e) && e.reason == reason,
        },
        read is Missing || read is Malformed ==> (r matches Ok(config)
            && config.process_filter.mode is Off && config.process_filter.keywords@.len() == 0
            && config.path_filter.mode is Off && config.path_filter.keywords@.len() == 0),
{
    match read {
        ConfigRead::Parsed(config) => Ok(config),
        ConfigRead::Missing => Ok(AppConfig::default()),
        ConfigRead::Malformed(_) => Ok(AppConfig::default()),
        ConfigRead::Unreadable(reason) => Err(ConfigError { reason }),
    }
}

/// What the settings file holds: the settings as JSON, and the end of the line.
pub fn config_text(json: String) -> (text: String)
    ensures
        text@ == json@.push('\n'),
{
    let mut text = json;
    text.push('\n');
    text
}

/// A filter whose mode is `Off` lets everything through, whatever its keywords.
pub proof fn off_allows_all(dto: FilterConfigDto, value: Seq<char>)
    requires
        dto.mode is Off,
    ensures
        lists_allow(dto.white(), dto.black(), value),
{
}

/// A filter without keywords lets everything through, whatever its mode.
pub proof fn no_keywords_allow_all(dto: FilterConfigDto, value: Seq<char>)
    requires
        dto.keywords@.len() == 0,
    ensures
        lists_allow(dto.white(), dto.black(), value),
{
    reveal(Seq::filter);
    assert(trimmed_keywords(texts(dto.keywords@)) =~= Seq::empty());
}

/// Trimming changes nothing of what keywords look for, so that settings decide as their keywords
/// do in the list that the mode says.
pub proof fn mode_picks_the_list(dto: FilterConfigDto, value: Seq<char>)
    ensures
        dto.mode is Whitelist ==> lists_allow(dto.white(), dto.black(), value) == lists_allow(
            texts(dto.keywords@),
            Seq::empty(),
            value,
        ),
        dto.mode is Blacklist ==> lists_allow(dto.white(), dto.black(), value) == lists_allow(
            Seq::empty(),
            texts(dto.keywords@),
            value,
        ),
{
    trimming_is_invisible(texts(dto.keywords@));
}

/// Keywords look for the same before and after they are trimmed.
proof fn trimming_is_invisible(raw: Seq<Seq<char>>)
    ensures
        compiled_all(trimmed_keywords(raw)) == compiled_all(raw),
    decreases raw.len(),
{
    reveal(Seq::filter);
    if raw.len() == 0 {
        assert(trimmed_keywords(raw) =~= raw);
    } else {
        let rest = raw.drop_last();
        let kw = raw.last();
        trimming_is_invisible(rest);
        trimmed_keywords_push(rest, kw);
        assert(rest.push(kw) =~= raw);
        trim_is_final(kw);
        assert(compiled(trim_text(kw)) == compiled(kw));
        if trim_text(kw).len() > 0 {
            let longer = trimmed_keywords(rest).push(trim_text(kw));
            assert(longer.drop_last() =~= trimmed_keywords(rest));
        }
    }
}

/// No blank keyword comes out of the trimming, and trimming again changes nothing.
pub proof fn trimming_is_final(raw: Seq<Seq<char>>)
    ensures
        forall|i: int|
            0 <= i < trimmed_keywords(raw).len() ==> (#[trigger] trimmed_keywords(raw)[i]).len()
                > 0,
        trimmed_keywords(trimmed_keywords(raw)) == trimmed_keywords(raw),
    decreases raw.len(),
{
    reveal(Seq::filter);
    if raw.len() == 0 {
        assert(trimmed_keywords(raw) =~= raw);
    } else {
        let rest = raw.drop_last();
        let kw = raw.last();
        trimming_is_final(rest);
        trimmed_keywords_push(rest, kw);
        assert(rest.push(kw) =~= raw);
        trim_is_final(kw);
        if trim_text(kw).len() > 0 {
            trimmed_keywords_push(trimmed_keywords(rest), trim_text(kw));
        }
    }
}

} // verus!
