//! The two rules that decide what is retained: which directories may be
//! entered, and which file names are left out.

use crate::paths::TreePath;
use crate::structures::{Config, ConfigModel, ConfigType};
use crate::text::{contains_text, is_substring, same_text, texts};
use vstd::prelude::*;

verus! {

/// The rules of one run.
#[derive(Debug, PartialEq, Eq)]
pub struct FilterSet {
    /// Names of the directories that may be entered; empty to allow all.
    pub included_directory_names: Vec<String>,
    /// A file whose name holds one of these is left out.
    pub excluded_name_fragments: Vec<String>,
}

/// The mathematical value of a [`FilterSet`].
pub struct FilterModel {
    pub included_directory_names: Seq<Seq<char>>,
    pub excluded_name_fragments: Seq<Seq<char>>,
}

impl View for FilterSet {
    type V = FilterModel;

    open spec fn view(&self) -> FilterModel {
        FilterModel {
            included_directory_names: texts(self.included_directory_names@),
            excluded_name_fragments: texts(self.excluded_name_fragments@),
        }
    }
}

/// A directory of this name may be entered: no names are listed, or it is one of them.
pub open spec fn directory_allowed(filters: FilterModel, name: Seq<char>) -> bool {
    filters.included_directory_names.len() == 0 || filters.included_directory_names.contains(name)
}

/// Some fragment of `exclusion` is a contiguous part of `name`.
pub open spec fn holds_excluded_fragment(name: Seq<char>, exclusion: Seq<Seq<char>>) -> bool {
    exists|i: int| 0 <= i < exclusion.len() && is_substring(name, #[trigger] exclusion[i])
}

/// A file of this name is retained: no excluded fragment is part of it.
pub open spec fn file_allowed(filters: FilterModel, name: Seq<char>) -> bool {
    !holds_excluded_fragment(name, filters.excluded_name_fragments)
}

/// Whether `name` is one of `names`.
pub fn is_listed(names: &Vec<String>, name: &str) -> (listed: bool)
    ensures
        listed == texts(names@).contains(name@),
{
    let mut i: usize = 0;
    while i < names.len()
        invariant
            i <= names.len(),
            forall|j: int| 0 <= j < i ==> texts(names@)[j] != name@,
        decreases names.len() - i,
    {
        if same_text(names[i].as_str(), name) {
            assert(texts(names@)[i as int] == name@);
            return true;
        }
        i = i + 1;
    }
    false
}

/// Whether the directory at `path` may be entered, by its own name, the
/// last component of `path`: no names are listed, or it is one of
/// `whitelist`. A path without components leads to no directory.
pub fn contains_included_directory(path: &TreePath, whitelist: &Vec<String>) -> (listed: bool)
    ensures
        listed == (path@.components.len() > 0 && (whitelist@.len() == 0 || texts(
            whitelist@,
        ).contains(path@.components.last()))),
{
    let n = path.components.len();
    if n == 0 {
        return false;
    }
    whitelist.len() == 0 || is_listed(whitelist, path.components[n - 1].as_str())
}

/// Whether some string of `exclusion` is a contiguous part of `string_to_compare`.
pub fn contains_excluded_file_string(string_to_compare: &String, exclusion: &Vec<String>) -> (found:
    bool)
    ensures
        found == holds_excluded_fragment(string_to_compare@, texts(exclusion@)),
{
    let mut i: usize = 0;
    while i < exclusion.len()
        invariant
            i <= exclusion.len(),
            forall|j: int| 0 <= j < i ==> !is_substring(string_to_compare@, texts(exclusion@)[j]),
        decreases exclusion.len() - i,
    {
        if contains_text(string_to_compare.as_str(), exclusion[i].as_str()) {
            assert(is_substring(string_to_compare@, texts(exclusion@)[i as int]));
            return true;
        }
        i = i + 1;
    }
    false
}

/// The value of each section of a sequence.
pub open spec fn config_models(configs: Seq<Config>) -> Seq<ConfigModel> {
    configs.map_values(|c: Config| c@)
}

/// The values of all sections of type `kind`, section after section, each in
/// the order written.
pub open spec fn options_of(configs: Seq<ConfigModel>, kind: ConfigType) -> Seq<Seq<char>>
    decreases configs.len(),
{
    if configs.len() == 0 {
        Seq::empty()
    } else {
        options_of(configs.drop_last(), kind) + (if configs.last().conf_type == kind {
            configs.last().collection_of_options
        } else {
            Seq::empty()
        })
    }
}

/// Gathers the values of all sections of type `kind`: see [`options_of`].
pub fn collect_options(configs: &Vec<Config>, kind: ConfigType) -> (options: Vec<String>)
    ensures
        texts(options@) == options_of(config_models(configs@), kind),
{
    let mut options: Vec<String> = Vec::new();
    let mut i: usize = 0;
    while i < configs.len()
        invariant
            i <= configs.len(),
            texts(options@) == options_of(config_models(configs@).take(i as int), kind),
        decreases configs.len() - i,
    {
        let config = &configs[i];
        let ghost done = config_models(configs@).take(i as int);
        let ghost next = config_models(configs@).take(i + 1);
        assert(next.drop_last() =~= done);
        if config.conf_type == kind {
            let ghost before = texts(options@);
            let mut j: usize = 0;
            while j < config.collection_of_options.len()
                invariant
                    j <= config.collection_of_options.len(),
                    texts(options@) == before + config@.collection_of_options.take(j as int),
                decreases config.collection_of_options.len() - j,
            {
                let ghost earlier = options@;
                options.push(config.collection_of_options[j].clone());
                assert(texts(options@) =~= texts(earlier).push(
                    config.collection_of_options[j as int]@,
                ));
                j = j + 1;
            }
        }
        i = i + 1;
    }
    assert(config_models(configs@).take(i as int) =~= config_models(configs@));
    options
}

impl FilterSet {
    /// The rules that a parsed configuration asks for: the directories named
    /// by its `IncludedDirectories` sections may be entered, and the values
    /// of its `ExcludedPaths` sections are the excluded fragments.
    pub fn from_configs(configs: &Vec<Config>) -> (filters: FilterSet)
        ensures
            filters@.included_directory_names == options_of(
                config_models(configs@),
                ConfigType::IncludedDirectories,
            ),
            filters@.excluded_name_fragments == options_of(
                config_models(configs@),
                ConfigType::ExcludedPaths,
            ),
    {
        FilterSet {
            included_directory_names: collect_options(configs, ConfigType::IncludedDirectories),
            excluded_name_fragments: collect_options(configs, ConfigType::ExcludedPaths),
        }
    }

    /// Whether a directory of this name may be entered: see [`directory_allowed`].
    pub fn allow_directory(&self, name: &str) -> (allowed: bool)
        ensures
            allowed == directory_allowed(self@, name@),
    {
        self.included_directory_names.len() == 0 || is_listed(&self.included_directory_names, name)
    }

    /// Whether a file of this name is retained: see [`file_allowed`].
    pub fn allow_file(&self, name: &str) -> (allowed: bool)
        ensures
            allowed == file_allowed(self@, name@),
    {
        let name = String::from_str(name);
        !contains_excluded_file_string(&name, &self.excluded_name_fragments)
    }
}

} // verus!
