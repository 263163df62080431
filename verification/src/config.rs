//! The user's configuration: which icon stands for which application, and
//! how a workspace's name is put together.
use crate::format::{format_name, format_text};
use crate::text::{contains, contains_sub, views};
use indexmap::IndexMap;
use vstd::prelude::*;

verus! {

/// `indexmap::IndexMap`, a hash map that keeps its entries in the order in
/// which they were inserted. Nothing inside it is visible to the proofs.
#[verifier::external_type_specification]
#[verifier::external_body]
#[verifier::reject_recursive_types(K)]
#[verifier::reject_recursive_types(V)]
#[verifier::reject_recursive_types(S)]
pub struct ExIndexMap<K, V, S>(IndexMap<K, V, S>);

/// The entries of the map, key and value, in the map's own order.
pub uninterp spec fn entries(m: IndexMap<String, String>) -> Seq<(Seq<char>, Seq<char>)>;

/// The lowercase form of a text, as `str::to_lowercase` gives it.
pub uninterp spec fn lowercase_of(s: Seq<char>) -> Seq<char>;

/// `IndexMap::len`: the number of entries in the map.
#[verifier::external_body]
fn entry_count(m: &IndexMap<String, String>) -> (n: usize)
    ensures
        n == entries(*m).len(),
{
    m.len()
}

/// `IndexMap::get_index`: the key and the value of the entry at position `i`
/// in the map's order, and nothing for a position past the last entry.
#[verifier::external_body]
fn entry_at(m: &IndexMap<String, String>, i: usize) -> (entry: Option<(&String, &String)>)
    ensures
        match entry {
            Some((key, value)) => i < entries(*m).len() && key@ == entries(*m)[i as int].0
                && value@ == entries(*m)[i as int].1,
            None => i >= entries(*m).len(),
        },
{
    m.get_index(i)
}

/// `str::to_lowercase`: the text in lowercase. What that is for a given text
/// is left to the standard library; the contract only names it.
#[verifier::external_body]
fn to_lowercase(s: &str) -> (out: String)
    ensures
        out@ == lowercase_of(s@),
{
    s.to_lowercase()
}

/// Configuration for icon to workspace mappings.
#[derive(Debug)]
pub struct Config {
    /// Icon used for applications that no key matches.
    pub default_icon: String,
    /// Template of the new name, with `%n` for the workspace's number and
    /// `%i` for its icons.
    pub format_str: String,
    /// Text put between two icons.
    pub icon_separator: String,
    /// Application name to icon, in the order in which keys are tried.
    pub icons: IndexMap<String, String>,
}

/// What a configuration says, as plain values.
pub struct ConfigView {
    pub default_icon: Seq<char>,
    pub format_str: Seq<char>,
    pub icon_separator: Seq<char>,
    pub icons: Seq<(Seq<char>, Seq<char>)>,
}

impl View for Config {
    type V = ConfigView;

    open spec fn view(&self) -> ConfigView {
        ConfigView {
            default_icon: self.default_icon@,
            format_str: self.format_str@,
            icon_separator: self.icon_separator@,
            icons: entries(self.icons),
        }
    }
}

/// The position of the first key that stands in `text`, or the number of
/// keys if none does.
pub open spec fn first_containing(keys: Seq<Seq<char>>, text: Seq<char>) -> int
    decreases keys.len(),
{
    if keys.len() == 0 || contains_sub(text, keys[0]) {
        0
    } else {
        1 + first_containing(keys.skip(1), text)
    }
}

/// The keys of the entries in lowercase, in the entries' order.
pub open spec fn lowered_keys(icons: Seq<(Seq<char>, Seq<char>)>) -> Seq<Seq<char>> {
    Seq::new(icons.len(), |i: int| lowercase_of(icons[i].0))
}

/// The position of the first entry whose key, in lowercase, stands in
/// `lowered`, or the number of entries if no key does.
pub open spec fn first_match(icons: Seq<(Seq<char>, Seq<char>)>, lowered: Seq<char>) -> int {
    first_containing(lowered_keys(icons), lowered)
}

/// The icon for an identifier that is already in lowercase: that of the
/// first entry whose key, in lowercase, stands in it, or the default icon.
pub open spec fn icon_of_lowered(cfg: ConfigView, lowered: Seq<char>) -> Seq<char> {
    let i = first_match(cfg.icons, lowered);
    if 0 <= i < cfg.icons.len() {
        cfg.icons[i].1
    } else {
        cfg.default_icon
    }
}

/// The icon for an application identifier. Case makes no difference: the
/// lowercase form of a key is looked for in the lowercase form of the
/// identifier.
pub open spec fn icon_of(cfg: ConfigView, id: Seq<char>) -> Seq<char> {
    icon_of_lowered(cfg, lowercase_of(id))
}

/// A key stands in an identifier, whatever the case of either.
pub open spec fn key_matches(key: Seq<char>, id: Seq<char>) -> bool {
    contains_sub(lowercase_of(id), lowercase_of(key))
}

/// Every key is a text of at least one character.
pub open spec fn keys_nonempty(cfg: ConfigView) -> bool {
    forall|i: int| 0 <= i < cfg.icons.len() ==> (#[trigger] cfg.icons[i]).0.len() > 0
}

/// `first_containing` is the position before which no key stands in the
/// text and at which one does, or the number of keys.
pub proof fn lemma_first_containing(keys: Seq<Seq<char>>, text: Seq<char>, k: int)
    requires
        0 <= k <= keys.len(),
        forall|j: int| 0 <= j < k ==> !contains_sub(text, #[trigger] keys[j]),
        k < keys.len() ==> contains_sub(text, keys[k]),
    ensures
        first_containing(keys, text) == k,
    decreases keys.len(),
{
    if k > 0 {
        let rest = keys.skip(1);
        assert(!contains_sub(text, keys[0]));
        assert forall|j: int| 0 <= j < k - 1 implies !contains_sub(text, #[trigger] rest[j]) by {
            assert(rest[j] == keys[j + 1]);
        }
        lemma_first_containing(rest, text, k - 1);
    }
}

/// An identifier that no configured key matches gets the default icon,
/// whatever the configuration holds besides.
pub proof fn lemma_unmatched_gets_default(cfg: ConfigView, id: Seq<char>)
    requires
        forall|j: int| 0 <= j < cfg.icons.len() ==> !key_matches((#[trigger] cfg.icons[j]).0, id),
    ensures
        icon_of(cfg, id) == cfg.default_icon,
{
    let keys = lowered_keys(cfg.icons);
    assert forall|j: int| 0 <= j < keys.len() implies !contains_sub(
        lowercase_of(id),
        #[trigger] keys[j],
    ) by {
        assert(!key_matches(cfg.icons[j].0, id));
    }
    lemma_first_containing(keys, lowercase_of(id), keys.len() as int);
}

/// Where several keys match an identifier, the entry that was configured
/// first gives the icon.
pub proof fn lemma_first_key_wins(cfg: ConfigView, id: Seq<char>, k: int)
    requires
        0 <= k < cfg.icons.len(),
        key_matches(cfg.icons[k].0, id),
        forall|j: int| 0 <= j < k ==> !key_matches((#[trigger] cfg.icons[j]).0, id),
    ensures
        icon_of(cfg, id) == cfg.icons[k].1,
{
    let keys = lowered_keys(cfg.icons);
    assert forall|j: int| 0 <= j < k implies !contains_sub(lowercase_of(id), #[trigger] keys[j]) by {
        assert(!key_matches(cfg.icons[j].0, id));
    }
    lemma_first_containing(keys, lowercase_of(id), k);
}

/// The position of the first of `keys` that stands in `text`.
pub fn first_key_in(keys: &Vec<String>, text: &str) -> (found: Option<usize>)
    ensures
        match found {
            Some(i) => i < keys.len() && i == first_containing(views(keys@), text@),
            None => first_containing(views(keys@), text@) == keys.len(),
        },
{
    let mut i: usize = 0;
    while i < keys.len()
        invariant
            i <= keys.len(),
            forall|j: int| 0 <= j < i ==> !contains_sub(text@, #[trigger] views(keys@)[j]),
        decreases keys.len() - i,
    {
        if contains(text, keys[i].as_str()) {
            proof {
                lemma_first_containing(views(keys@), text@, i as int);
            }
            return Some(i);
        }
        i += 1;
    }
    proof {
        lemma_first_containing(views(keys@), text@, keys.len() as int);
    }
    None
}

impl Config {
    /// The keys in lowercase, in the order in which they are tried.
    pub fn lowered_keys(&self) -> (keys: Vec<String>)
        ensures
            views(keys@) == lowered_keys(self@.icons),
    {
        let n = entry_count(&self.icons);
        let mut keys: Vec<String> = Vec::new();
        let mut i: usize = 0;
        while i < n
            invariant
                i <= n,
                n == self@.icons.len(),
                views(keys@) == lowered_keys(self@.icons).take(i as int),
            decreases n - i,
        {
            let ghost before = views(keys@);
            match entry_at(&self.icons, i) {
                Some((key, _)) => {
                    keys.push(to_lowercase(key.as_str()));
                },
                None => {},
            }
            assert(views(keys@) =~= before.push(lowercase_of(self@.icons[i as int].0)));
            assert(before.push(lowercase_of(self@.icons[i as int].0)) =~= lowered_keys(
                self@.icons,
            ).take(i + 1));
            i += 1;
        }
        assert(lowered_keys(self@.icons).take(n as int) == lowered_keys(self@.icons));
        keys
    }

    /// The position of the first entry whose key, in lowercase, stands in
    /// `lowered`.
    pub fn matching_entry(&self, lowered: &str) -> (found: Option<usize>)
        ensures
            match found {
                Some(i) => i < self@.icons.len() && i == first_match(self@.icons, lowered@),
                None => first_match(self@.icons, lowered@) == self@.icons.len(),
            },
    {
        let keys = self.lowered_keys();
        first_key_in(&keys, lowered)
    }

    /// The icon for an identifier that is already in lowercase.
    pub fn icon_for_lowered(&self, lowered: &str) -> (icon: String)
        ensures
            icon@ == icon_of_lowered(self@, lowered@),
    {
        match self.matching_entry(lowered) {
            Some(i) => match entry_at(&self.icons, i) {
                Some((_, value)) => value.clone(),
                None => self.default_icon.clone(),
            },
            None => self.default_icon.clone(),
        }
    }

    /// The icon for an application identifier.
    pub fn icon_for(&self, id: &str) -> (icon: String)
        ensures
            icon@ == icon_of(self@, id@),
    {
        let lowered = to_lowercase(id);
        self.icon_for_lowered(lowered.as_str())
    }

    /// Whether some configured key matches the identifier, so that it does
    /// not fall back to the default icon.
    pub fn has_icon_for(&self, id: &str) -> (known: bool)
        ensures
            known == (first_match(self@.icons, lowercase_of(id@)) < self@.icons.len()),
    {
        let lowered = to_lowercase(id);
        self.matching_entry(lowered.as_str()).is_some()
    }

    /// Whether every key is a text of at least one character.
    pub fn has_nonempty_keys(&self) -> (ok: bool)
        ensures
            ok == keys_nonempty(self@),
    {
        let n = entry_count(&self.icons);
        let mut i: usize = 0;
        while i < n
            invariant
                i <= n,
                n == self@.icons.len(),
                forall|j: int| 0 <= j < i ==> (#[trigger] self@.icons[j]).0.len() > 0,
            decreases n - i,
        {
            match entry_at(&self.icons, i) {
                Some((key, _)) => {
                    if key.as_str().is_empty() {
                        return false;
                    }
                },
                None => {},
            }
            i += 1;
        }
        true
    }

    /// Generate the workspace name from the format string in the config by
    /// replacing all placeholders with their values:
    ///
    ///  * `%n`: workspace number
    ///  * `%i`: icons
    pub fn format(&self, num: String, icon: String) -> (name: String)
        ensures
            name@ == format_text(self@.format_str, num@, icon@),
    {
        format_name(self.format_str.as_str(), num.as_str(), icon.as_str())
    }
}

} // verus!
