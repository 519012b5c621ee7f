//! Parses the lines of a configuration into its sections.
//!
//! A section starts with a line that holds `conf-start:` and the name of
//! its type, lists one value per line, each after `- `, and ends with the
//! line `conf-end:`. Dividers, headlines, dates, anchors, quotes and blank
//! lines are dropped before sections are looked for.

use crate::filters::config_models;
use crate::structures::{Config, ConfigModel, ConfigType};
use crate::text::{remove_all, same_text, texts, without};
use regex::Regex;
use vstd::prelude::*;
use vstd::string::*;

verus! {

/// The error of `regex::Regex::new`: why a pattern was not compiled. Nothing
/// is known of what it holds.
#[verifier::external_type_specification]
#[verifier::external_body]
pub struct ExRegexError(regex::Error);

/// What `Regex::is_match` returns for a text, asked of the regex that
/// `Regex::new` makes of a pattern: whether the regex has a match anywhere
/// in the text. It has no meaning for a pattern that `Regex::new` refuses.
pub uninterp spec fn pattern_matches(pattern: Seq<char>, haystack: Seq<char>) -> bool;

/// Compiles `pattern` with `regex::Regex::new` and asks the regex, with
/// `Regex::is_match`, whether it matches anywhere in `haystack`.
///
/// The error is that of the compilation, of which nothing is claimed: a
/// pattern may be refused for its syntax or for the size of what it
/// compiles to. The search itself neither fails nor panics, and what it
/// returns is named by [`pattern_matches`].
#[verifier::external_body]
fn search(pattern: &str, haystack: &str) -> (found: Result<bool, regex::Error>)
    ensures
        found matches Ok(hit) ==> hit == pattern_matches(pattern@, haystack@),
{
    match Regex::new(pattern) {
        Ok(compiled) => Ok(compiled.is_match(haystack)),
        Err(error) => Err(error),
    }
}

/// Why a configuration could not be parsed.
#[derive(Debug, PartialEq, Eq)]
pub enum ConfigError {
    /// A pattern by which lines are told apart was not accepted.
    InvalidPattern,
    /// A section starts with this text, which names no type of section.
    UnknownSection(String),
    /// A section has no value before its end.
    EmptySection,
}

/// The mathematical value of a [`ConfigError`].
pub enum ConfigErrorModel {
    InvalidPattern,
    UnknownSection(Seq<char>),
    EmptySection,
}

impl View for ConfigError {
    type V = ConfigErrorModel;

    open spec fn view(&self) -> ConfigErrorModel {
        match self {
            ConfigError::InvalidPattern => ConfigErrorModel::InvalidPattern,
            ConfigError::UnknownSection(name) => ConfigErrorModel::UnknownSection(name@),
            ConfigError::EmptySection => ConfigErrorModel::EmptySection,
        }
    }
}

/// The first position from `from` on at which `line` stands in `lines`, or
/// the length of `lines` where it stands at none.
pub open spec fn position_of(lines: Seq<Seq<char>>, line: Seq<char>, from: int) -> int
    decreases lines.len() - from,
{
    if from < 0 || from >= lines.len() {
        lines.len() as int
    } else if lines[from] == line {
        from
    } else {
        position_of(lines, line, from + 1)
    }
}

/// The lines between the first occurrence of `entry` and the next one, or
/// the end where there is no next one; none where `entry` does not occur.
pub open spec fn following(lines: Seq<Seq<char>>, entry: Seq<char>) -> Seq<Seq<char>> {
    let first = position_of(lines, entry, 0);
    if first >= lines.len() {
        Seq::empty()
    } else {
        lines.subrange(first + 1, position_of(lines, entry, first + 1))
    }
}

/// The values of a section whose lines after its start are `lines`: each
/// line before the first `conf-end:`, without its `- `.
pub open spec fn values_before_end(lines: Seq<Seq<char>>) -> Seq<Seq<char>> {
    lines.take(position_of(lines, "conf-end:"@, 0)).map_values(|v: Seq<char>| without(v, "- "@))
}

/// The type of section that a name stands for.
pub open spec fn section_kind(name: Seq<char>) -> Option<ConfigType> {
    if name == "excluded_directories"@ {
        Some(ConfigType::ExcludedPaths)
    } else if name == "prefixes_for_headlines"@ {
        Some(ConfigType::PrefixHeadline)
    } else if name == "included_directories"@ {
        Some(ConfigType::IncludedDirectories)
    } else {
        None
    }
}

/// `line` stands nowhere in `lines` from `from` up to `at`, and `at` is
/// the end or holds `line`: then `at` is the position of `line` from `from`.
pub proof fn lemma_position_of(lines: Seq<Seq<char>>, line: Seq<char>, from: int, at: int)
    requires
        0 <= from <= at <= lines.len(),
        forall|j: int| from <= j < at ==> lines[j] != line,
        at == lines.len() || lines[at] == line,
    ensures
        position_of(lines, line, from) == at,
    decreases at - from,
{
    if from < at {
        lemma_position_of(lines, line, from + 1, at);
    }
}

/// The section of type `config_type` whose lines after its start are
/// `param_vec`: its values are those of [`values_before_end`]. A section
/// without a value is refused.
pub fn assemble_single_config(config_type: ConfigType, param_vec: Vec<String>) -> (section: Result<
    Config,
    ConfigError,
>)
    ensures
        values_before_end(texts(param_vec@)).len() == 0 ==> section is Err && section->Err_0@
            == ConfigErrorModel::EmptySection,
        values_before_end(texts(param_vec@)).len() > 0 ==> section is Ok && section->Ok_0@ == (
        ConfigModel {
            conf_type: config_type,
            collection_of_options: values_before_end(texts(param_vec@)),
        }),
{
    let ghost lines = texts(param_vec@);
    let mut resulting_params: Vec<String> = Vec::new();
    let mut i: usize = 0;
    while i < param_vec.len() && !same_text(param_vec[i].as_str(), "conf-end:")
        invariant
            i <= param_vec.len(),
            lines == texts(param_vec@),
            forall|j: int| 0 <= j < i ==> lines[j] != "conf-end:"@,
            resulting_params.len() == i,
            forall|j: int| 0 <= j < i ==> resulting_params[j]@ == without(lines[j], "- "@),
        decreases param_vec.len() - i,
    {
        resulting_params.push(remove_all(param_vec[i].as_str(), "- "));
        i = i + 1;
    }
    proof {
        lemma_position_of(lines, "conf-end:"@, 0, i as int);
        assert(texts(resulting_params@) =~= values_before_end(lines));
    }
    if resulting_params.len() == 0 {
        return Err(ConfigError::EmptySection);
    }
    Ok(Config { conf_type: config_type, collection_of_options: resulting_params })
}

/// The lines that follow the first occurrence of `entry`: see [`following`].
pub fn lines_after(lines: &Vec<String>, entry: &String) -> (rest: Vec<String>)
    ensures
        texts(rest@) == following(texts(lines@), entry@),
{
    let ghost all = texts(lines@);
    let mut first: usize = 0;
    while first < lines.len() && lines[first] != *entry
        invariant
            first <= lines.len(),
            all == texts(lines@),
            forall|j: int| 0 <= j < first ==> all[j] != entry@,
        decreases lines.len() - first,
    {
        first = first + 1;
    }
    proof {
        lemma_position_of(all, entry@, 0, first as int);
    }
    let mut rest: Vec<String> = Vec::new();
    if first == lines.len() {
        return rest;
    }
    let mut i: usize = first + 1;
    while i < lines.len() && lines[i] != *entry
        invariant
            first < i <= lines.len(),
            all == texts(lines@),
            forall|j: int| first < j < i ==> all[j] != entry@,
            rest.len() == i - first - 1,
            forall|j: int| 0 <= j < rest.len() ==> rest[j]@ == all[first + 1 + j],
        decreases lines.len() - i,
    {
        rest.push(lines[i].clone());
        i = i + 1;
    }
    proof {
        lemma_position_of(all, entry@, first + 1, i as int);
    }
    rest
}

/// The section that starts at line `at`: its type is named by what is
/// left of the line without `conf-start:`, its values are those of the
/// lines that follow the first occurrence of the line.
pub open spec fn section_at(lines: Seq<Seq<char>>, at: int) -> Result<
    ConfigModel,
    ConfigErrorModel,
> {
    let name = without(lines[at], "conf-start:"@);
    match section_kind(name) {
        None => Err(ConfigErrorModel::UnknownSection(name)),
        Some(kind) => {
            let values = values_before_end(following(lines, lines[at]));
            if values.len() == 0 {
                Err(ConfigErrorModel::EmptySection)
            } else {
                Ok(ConfigModel { conf_type: kind, collection_of_options: values })
            }
        },
    }
}

/// Whether line `at` is marked as the start of a section.
pub open spec fn marked(flags: Seq<bool>, at: int) -> bool {
    0 <= at < flags.len() && flags[at]
}

/// The sections that start among the first `count` lines, in order, or the
/// error of the first of them that is refused.
pub open spec fn sections_among(lines: Seq<Seq<char>>, starts: Seq<bool>, count: int) -> Result<
    Seq<ConfigModel>,
    ConfigErrorModel,
>
    decreases count,
{
    if count <= 0 || count > lines.len() {
        Ok(Seq::empty())
    } else {
        match sections_among(lines, starts, count - 1) {
            Err(error) => Err(error),
            Ok(found) => if !marked(starts, count - 1) {
                Ok(found)
            } else {
                match section_at(lines, count - 1) {
                    Ok(section) => Ok(found.push(section)),
                    Err(error) => Err(error),
                }
            },
        }
    }
}

/// The value of what a parse returned.
pub open spec fn parse_model(parsed: Result<Vec<Config>, ConfigError>) -> Result<
    Seq<ConfigModel>,
    ConfigErrorModel,
> {
    match parsed {
        Ok(sections) => Ok(config_models(sections@)),
        Err(error) => Err(error@),
    }
}

/// The type of section that a name stands for: see [`section_kind`].
pub fn kind_of_section(name: &str) -> (kind: Option<ConfigType>)
    ensures
        kind == section_kind(name@),
{
    if same_text(name, "excluded_directories") {
        Some(ConfigType::ExcludedPaths)
    } else if same_text(name, "prefixes_for_headlines") {
        Some(ConfigType::PrefixHeadline)
    } else if same_text(name, "included_directories") {
        Some(ConfigType::IncludedDirectories)
    } else {
        None
    }
}

/// The sections of `lines`, where `starts` marks the lines that start one:
/// see [`sections_among`]. A line without a mark starts none.
pub fn sections_from(lines: &Vec<String>, starts: &Vec<bool>) -> (parsed: Result<
    Vec<Config>,
    ConfigError,
>)
    ensures
        parse_model(parsed) == sections_among(texts(lines@), starts@, lines.len() as int),
{
    let ghost all = texts(lines@);
    let mut collection: Vec<Config> = Vec::new();
    assert(config_models(collection@) =~= Seq::empty());
    let mut i: usize = 0;
    while i < lines.len()
        invariant
            i <= lines.len(),
            all == texts(lines@),
            sections_among(all, starts@, i as int) == Ok::<Seq<ConfigModel>, ConfigErrorModel>(
                config_models(collection@),
            ),
        decreases lines.len() - i,
    {
        if i < starts.len() && starts[i] {
            let entry = &lines[i];
            let type_as_string = remove_all(entry.as_str(), "conf-start:");
            let option_type = match kind_of_section(type_as_string.as_str()) {
                Some(kind) => kind,
                None => {
                    proof {
                        lemma_refusal_stays(all, starts@, i + 1, lines.len() as int);
                    }
                    return Err(ConfigError::UnknownSection(type_as_string));
                },
            };
            let rest_without_start = lines_after(lines, entry);
            match assemble_single_config(option_type, rest_without_start) {
                Ok(config) => {
                    let ghost before = config_models(collection@);
                    collection.push(config);
                    assert(config_models(collection@) =~= before.push(config@));
                },
                Err(error) => {
                    proof {
                        lemma_refusal_stays(all, starts@, i + 1, lines.len() as int);
                    }
                    return Err(error);
                },
            }
        }
        i = i + 1;
    }
    Ok(collection)
}

/// Once a section is refused, later lines do not change the result.
pub proof fn lemma_refusal_stays(
    lines: Seq<Seq<char>>,
    starts: Seq<bool>,
    count: int,
    later: int,
)
    requires
        0 <= count <= later <= lines.len(),
        sections_among(lines, starts, count) is Err,
    ensures
        sections_among(lines, starts, later) == sections_among(lines, starts, count),
    decreases later - count,
{
    if count < later {
        lemma_refusal_stays(lines, starts, count, later - 1);
    }
}

/// For each line, whether it starts a section: whether the pattern
/// `conf-start:.*` matches in it.
pub open spec fn start_marks(lines: Seq<Seq<char>>) -> Seq<bool> {
    Seq::new(lines.len(), |i: int| pattern_matches("conf-start:.*"@, lines[i]))
}

/// The sections of `lines`: those that start at the lines that the pattern
/// `conf-start:.*` matches in.
pub open spec fn sections_of(lines: Seq<Seq<char>>) -> Result<Seq<ConfigModel>, ConfigErrorModel> {
    sections_among(lines, start_marks(lines), lines.len() as int)
}

/// Parses the sections of the lines of a configuration: see [`sections_of`].
///
/// The parse fails with `InvalidPattern` where the pattern that finds the
/// starts is not compiled; without lines nothing is compiled.
pub fn vec_to_config(config_as_list: Vec<String>) -> (parsed: Result<Vec<Config>, ConfigError>)
    ensures
        parse_model(parsed) == sections_of(texts(config_as_list@)) || parse_model(parsed) == Err::<
            Seq<ConfigModel>,
            ConfigErrorModel,
        >(ConfigErrorModel::InvalidPattern),
        config_as_list.len() == 0 ==> parsed is Ok,
{
    let ghost lines = texts(config_as_list@);
    let mut starts: Vec<bool> = Vec::new();
    let mut i: usize = 0;
    while i < config_as_list.len()
        invariant
            i <= config_as_list.len(),
            lines == texts(config_as_list@),
            starts.len() == i,
            forall|j: int| 0 <= j < i ==> starts[j] == pattern_matches("conf-start:.*"@, lines[j]),
        decreases config_as_list.len() - i,
    {
        match search("conf-start:.*", config_as_list[i].as_str()) {
            Ok(hit) => {
                starts.push(hit);
            },
            Err(_) => {
                return Err(ConfigError::InvalidPattern);
            },
        }
        i = i + 1;
    }
    assert(starts@ =~= start_marks(lines));
    sections_from(&config_as_list, &starts)
}

/// For each line, whether it is dropped before sections are looked for:
/// whether the pattern of dividers, headlines, dates, anchors, quotes and
/// blank lines matches in it.
pub open spec fn dropped_marks(lines: Seq<Seq<char>>) -> Seq<bool> {
    Seq::new(
        lines.len(),
        |i: int| pattern_matches("---.*|#.*|date-*|anchored.*|>.*|^\\s*$"@, lines[i]),
    )
}

/// The lines among the first `count` that are not marked as dropped, in order.
pub open spec fn kept_among(lines: Seq<Seq<char>>, dropped: Seq<bool>, count: int) -> Seq<
    Seq<char>,
>
    decreases count,
{
    if count <= 0 || count > lines.len() {
        Seq::empty()
    } else {
        kept_among(lines, dropped, count - 1) + (if marked(dropped, count - 1) {
            Seq::empty()
        } else {
            seq![lines[count - 1]]
        })
    }
}

/// The lines that are not marked as dropped, in order: see [`kept_among`].
/// A line without a mark is kept.
pub fn keep_unmarked(lines: Vec<String>, dropped: &Vec<bool>) -> (kept: Vec<String>)
    ensures
        texts(kept@) == kept_among(texts(lines@), dropped@, lines.len() as int),
{
    let ghost all = texts(lines@);
    let mut kept: Vec<String> = Vec::new();
    let mut i: usize = 0;
    while i < lines.len()
        invariant
            i <= lines.len(),
            all == texts(lines@),
            texts(kept@) == kept_among(all, dropped@, i as int),
        decreases lines.len() - i,
    {
        if !(i < dropped.len() && dropped[i]) {
            kept.push(lines[i].clone());
        }
        i = i + 1;
    }
    kept
}

/// The sections of a configuration given by its lines: those of the lines
/// that are kept.
pub open spec fn configuration_of(lines: Seq<Seq<char>>) -> Result<
    Seq<ConfigModel>,
    ConfigErrorModel,
> {
    sections_of(kept_among(lines, dropped_marks(lines), lines.len() as int))
}

/// Parses a configuration given by its lines: see [`configuration_of`].
///
/// The parse fails with `InvalidPattern` where one of the two patterns is
/// not compiled; without lines nothing is compiled.
pub fn parse_configuration(lines: Vec<String>) -> (parsed: Result<Vec<Config>, ConfigError>)
    ensures
        parse_model(parsed) == configuration_of(texts(lines@)) || parse_model(parsed) == Err::<
            Seq<ConfigModel>,
            ConfigErrorModel,
        >(ConfigErrorModel::InvalidPattern),
        lines.len() == 0 ==> parsed is Ok,
{
    let ghost all = texts(lines@);
    let mut dropped: Vec<bool> = Vec::new();
    let mut i: usize = 0;
    while i < lines.len()
        invariant
            i <= lines.len(),
            all == texts(lines@),
            dropped.len() == i,
            forall|j: int|
                0 <= j < i ==> dropped[j] == pattern_matches(
                    "---.*|#.*|date-*|anchored.*|>.*|^\\s*$"@,
                    all[j],
                ),
        decreases lines.len() - i,
    {
        match search("---.*|#.*|date-*|anchored.*|>.*|^\\s*$", lines[i].as_str()) {
            Ok(hit) => {
                dropped.push(hit);
            },
            Err(_) => {
                return Err(ConfigError::InvalidPattern);
            },
        }
        i = i + 1;
    }
    assert(dropped@ =~= dropped_marks(all));
    let filtered_config = keep_unmarked(lines, &dropped);
    vec_to_config(filtered_config)
}

/// The words in which an error is reported.
pub open spec fn error_text(error: ConfigErrorModel) -> Seq<char> {
    match error {
        ConfigErrorModel::InvalidPattern =>
            "a pattern of the configuration parser was not accepted"@,
        ConfigErrorModel::UnknownSection(name) => "no matching config-param was supplied "@ + name,
        ConfigErrorModel::EmptySection =>
            "error parsing config\n no params found before conf-end: --> typo?"@,
    }
}

impl ConfigError {
    /// The error in words: see [`error_text`].
    pub fn message(&self) -> (text: String)
        ensures
            text@ == error_text(self@),
    {
        match self {
            ConfigError::InvalidPattern => String::from_str(
                "a pattern of the configuration parser was not accepted",
            ),
            ConfigError::UnknownSection(name) => {
                let mut text = String::from_str("no matching config-param was supplied ");
                text.append(name.as_str());
                text
            },
            ConfigError::EmptySection => String::from_str(
                "error parsing config\n no params found before conf-end: --> typo?",
            ),
        }
    }
}

/// The name under which a type of section is reported.
pub open spec fn type_label(conf_type: ConfigType) -> Seq<char> {
    match conf_type {
        ConfigType::ExcludedPaths => "Excluded paths"@,
        ConfigType::PrefixHeadline => "headline prefixes"@,
        ConfigType::IncludedDirectories => "included directories"@,
    }
}

/// One line for each value, each after an arrow.
pub open spec fn value_lines(values: Seq<Seq<char>>) -> Seq<char>
    decreases values.len(),
{
    if values.len() == 0 {
        Seq::empty()
    } else {
        value_lines(values.drop_last()) + "-> "@ + values.last() + "\n"@
    }
}

/// The report of one section: its type, its values, and an empty line.
pub open spec fn section_report(config: ConfigModel) -> Seq<char> {
    "extracted config of type: "@ + type_label(config.conf_type) + "\n"@ + value_lines(
        config.collection_of_options,
    ) + "\n"@
}

/// The report of the sections one after another, and an empty line.
pub open spec fn report_text(configs: Seq<ConfigModel>) -> Seq<char> {
    sections_report(configs) + "\n"@
}

/// The reports of the sections one after another.
pub open spec fn sections_report(configs: Seq<ConfigModel>) -> Seq<char>
    decreases configs.len(),
{
    if configs.len() == 0 {
        Seq::empty()
    } else {
        sections_report(configs.drop_last()) + section_report(configs.last())
    }
}

/// The report of a parsed configuration, as text: see [`report_text`].
pub fn config_report(configs: &Vec<Config>) -> (report: String)
    ensures
        report@ == report_text(config_models(configs@)),
{
    let ghost all = config_models(configs@);
    let mut report = String::new();
    let mut i: usize = 0;
    while i < configs.len()
        invariant
            i <= configs.len(),
            all == config_models(configs@),
            report@ == sections_report(all.take(i as int)),
        decreases configs.len() - i,
    {
        let config = &configs[i];
        assert(all.take(i + 1).drop_last() =~= all.take(i as int));
        report.append("extracted config of type: ");
        match config.conf_type {
            ConfigType::ExcludedPaths => report.append("Excluded paths"),
            ConfigType::PrefixHeadline => report.append("headline prefixes"),
            ConfigType::IncludedDirectories => report.append("included directories"),
        }
        report.append("\n");
        let ghost head = report@;
        let ghost values = config@.collection_of_options;
        let mut j: usize = 0;
        while j < config.collection_of_options.len()
            invariant
                j <= config.collection_of_options.len(),
                values == config@.collection_of_options,
                report@ == head + value_lines(values.take(j as int)),
            decreases config.collection_of_options.len() - j,
        {
            assert(values.take(j + 1).drop_last() =~= values.take(j as int));
            report.append("-> ");
            report.append(config.collection_of_options[j].as_str());
            report.append("\n");
            j = j + 1;
        }
        assert(values.take(j as int) =~= values);
        report.append("\n");
        i = i + 1;
    }
    assert(all.take(i as int) =~= all);
    report.append("\n");
    report
}

} // verus!
