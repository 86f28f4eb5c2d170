use vstd::prelude::*;
use indexmap::IndexMap;
use crate::clipboard::{ClipboardEntry, ClipboardEntryView, ContentType, ContentTypeView, SelectingConfig};
use crate::error::Error;
use crate::filesystem::cache::{cache_item_pair, CacheItem, CacheManager};
use crate::ordered_map::{
    entries_get, entries_get_index, entries_insert, entries_len, entry_pairs, favourite_pairs,
    favourites_get_index, favourites_len, insert_all, keys_of, keys_unique, lemma_insert_all_lookup,
    lookup,
};
use crate::paths::{join_path, path_join};
use crate::text::{chars_of, from_utf8_lossy, join_lines, lemma_join_lines_layout, line_offset, kept_before_trailing, lossy_utf8,
    push_char, string_from_range, strip_trailing};

verus! {

/// The timestamp that marks an entry as a favourite.
pub const FAVORITE_TIMESTAMP: &'static str = "favorite";

/// The history menu: its configuration and the store it reads the history from.
pub struct ClipboardSelector {
    pub config: SelectingConfig,
    pub cache_manager: CacheManager,
}

/// What the clipboard receives for a chosen entry: the entry's text, or the files of a
/// recording in the given cache directory.
#[derive(Debug, Clone, PartialEq, Eq)]
pub enum ClipboardSource {
    Text(String),
    CacheDirectory(String),
}

/// The menu text and entry of a favourite, given by its name and the text it stands for.
pub open spec fn favourite_entry_pair(pair: (Seq<char>, Seq<char>)) -> (Seq<char>, ClipboardEntryView) {
    (
        pair.0,
        ClipboardEntryView {
            display_text: pair.0,
            timestamp: FAVORITE_TIMESTAMP@,
            content_type: ContentTypeView::Favorite(pair.1),
        },
    )
}

/// The entry that the menu's output chooses: the output without its trailing line
/// breaks and then its trailing carriage returns, if anything is left.
pub open spec fn menu_choice_text(output: Seq<char>) -> Option<Seq<char>> {
    let chosen = strip_trailing(strip_trailing(output, '\n'), '\r');
    if chosen.len() == 0 {
        None
    } else {
        Some(chosen)
    }
}

impl ClipboardSelector {
    /// The menu for `config`, reading the history from its cache directory.
    pub fn new(config: SelectingConfig) -> (s: ClipboardSelector)
        ensures
            s.config == config,
            s.cache_manager.cache_dir == config.cache_dir,
    {
        let cache_manager = CacheManager::new(config.cache_dir.clone());
        ClipboardSelector { config, cache_manager }
    }

    /// The favourites added to `entries`, each in turn under its name, in the order of
    /// the configuration.
    pub fn add_favorite_entries(&self, entries: &mut IndexMap<String, ClipboardEntry>)
        ensures
            entry_pairs(*final(entries)) == insert_all(
                entry_pairs(*old(entries)),
                favourite_pairs(self.config.favorites).map_values(
                    |p: (Seq<char>, Seq<char>)| favourite_entry_pair(p),
                ),
            ),
    {
        let ghost start = entry_pairs(*entries);
        let ghost added = favourite_pairs(self.config.favorites).map_values(
            |p: (Seq<char>, Seq<char>)| favourite_entry_pair(p),
        );
        let n: usize = favourites_len(&self.config.favorites);
        let mut i: usize = 0;
        while i < n
            invariant
                i <= n,
                n == favourite_pairs(self.config.favorites).len(),
                added == favourite_pairs(self.config.favorites).map_values(
                    |p: (Seq<char>, Seq<char>)| favourite_entry_pair(p),
                ),
                entry_pairs(*entries) == insert_all(start, added.take(i as int)),
            decreases n - i,
        {
            match favourites_get_index(&self.config.favorites, i) {
                Some((key, value)) => {
                    let entry = ClipboardEntry {
                        display_text: key.clone(),
                        timestamp: FAVORITE_TIMESTAMP.to_owned(),
                        content_type: ContentType::Favorite(value.clone()),
                    };
                    entries_insert(entries, key.clone(), entry);
                },
                None => {},
            }
            assert(added.take(i + 1).drop_last() =~= added.take(i as int));
            i = i + 1;
        }
        assert(added.take(n as int) =~= added);
    }

    /// The entries that the menu offers: those of the recordings found in the cache, in
    /// the order found, then the favourites.
    pub fn load_clipboard_entries(&self, listing: Vec<CacheItem>) -> (m: IndexMap<String, ClipboardEntry>)
        ensures
            entry_pairs(m) == insert_all(
                insert_all(Seq::empty(), listing@.map_values(|i: CacheItem| cache_item_pair(i))),
                favourite_pairs(self.config.favorites).map_values(
                    |p: (Seq<char>, Seq<char>)| favourite_entry_pair(p),
                ),
            ),
    {
        let mut entries = CacheManager::entries_from_listing(listing);
        self.add_favorite_entries(&mut entries);
        entries
    }

    /// What the menu program reads: the menu texts of the entries, one per line, in
    /// the map's order.
    pub fn menu_input(entries: &IndexMap<String, ClipboardEntry>) -> (s: String)
        ensures
            s@ == join_lines(keys_of(entry_pairs(*entries))),
            ({
                let keys = keys_of(entry_pairs(*entries));
                &&& keys.len() == entry_pairs(*entries).len()
                &&& keys.len() == 0 ==> s@.len() == 0
                &&& keys.len() > 0 ==> s@.len() == line_offset(keys, keys.len() - 1) + keys.last().len()
                &&& forall|i: int| 0 <= i < keys.len() ==> s@.subrange(
                    line_offset(keys, i),
                    line_offset(keys, i) + keys[i].len(),
                ) == #[trigger] keys[i]
                &&& forall|i: int| 0 <= i < keys.len() - 1 ==> s@[line_offset(keys, i)
                    + #[trigger] keys[i].len()] == '\n'
            }),
    {
        let ghost keys = keys_of(entry_pairs(*entries));
        let n: usize = entries_len(entries);
        let mut s = String::new();
        let mut i: usize = 0;
        while i < n
            invariant
                i <= n,
                n == entry_pairs(*entries).len(),
                keys == keys_of(entry_pairs(*entries)),
                s@ == join_lines(keys.take(i as int)),
            decreases n - i,
        {
            match entries_get_index(entries, i) {
                Some((key, _)) => {
                    let ghost before = s@;
                    if i > 0 {
                        push_char(&mut s, '\n');
                    }
                    s.append(key.as_str());
                    proof {
                        assert(keys[i as int] == key@);
                        assert(keys.take(i + 1).drop_last() =~= keys.take(i as int));
                        if i == 0 {
                            assert(keys.take(1) =~= seq![key@]);
                            assert(s@ =~= key@);
                        } else {
                            assert(s@ =~= before + seq!['\n'] + key@);
                        }
                    }
                },
                None => {},
            }
            i = i + 1;
        }
        assert(keys.take(n as int) =~= keys);
        proof {
            lemma_join_lines_layout(keys);
        }
        s
    }

    /// The entry that the menu program's output `output` chooses, if it chooses one.
    pub fn menu_choice(output: &[u8]) -> (r: Option<String>)
        ensures
            match menu_choice_text(lossy_utf8(output@)) {
                Some(t) => r matches Some(c) && c@ == t,
                None => r is None,
            },
    {
        let text = from_utf8_lossy(output);
        let v = chars_of(text.as_str());
        let k1: usize = kept_before_trailing(&v, v.len(), '\n');
        let k2: usize = kept_before_trailing(&v, k1, '\r');
        assert(v@.take(v@.len() as int) =~= v@);
        assert(v@.take(k1 as int).take(k1 as int) =~= v@.take(k1 as int));
        assert(v@.take(k1 as int).take(k2 as int) =~= v@.take(k2 as int));
        if k2 == 0 {
            None
        } else {
            Some(string_from_range(&v, 0, k2))
        }
    }

    /// What to put on the clipboard for the entry under `entry_key`: its text, or, for a
    /// recording that holds no plain text, its directory in the cache; an error where
    /// no entry has that key.
    pub fn clipboard_source(&self, entry_key: &str, entries: &IndexMap<String, ClipboardEntry>) -> (r: Result<ClipboardSource, Error>)
        ensures
            match lookup(entry_pairs(*entries), entry_key@) {
                None => r matches Err(Error::Generic(m)) && m@ == "Selected entry not found"@,
                Some(e) => match e.content_type {
                    ContentTypeView::Text(c) => r matches Ok(ClipboardSource::Text(t)) && t@ == c,
                    ContentTypeView::Favorite(c) => r matches Ok(ClipboardSource::Text(t)) && t@ == c,
                    ContentTypeView::Binary { timestamp } => r matches Ok(ClipboardSource::CacheDirectory(d))
                        && d@ == path_join(self.config.cache_dir@, timestamp),
                },
            },
    {
        match entries_get(entries, entry_key) {
            None => Err(Error::Generic("Selected entry not found".to_owned())),
            Some(entry) => match &entry.content_type {
                ContentType::Text(content) => Ok(ClipboardSource::Text(content.clone())),
                ContentType::Favorite(content) => Ok(ClipboardSource::Text(content.clone())),
                ContentType::Binary { timestamp } => Ok(ClipboardSource::CacheDirectory(
                    join_path(self.config.cache_dir.as_str(), timestamp.as_str()),
                )),
            },
        }
    }
}

/// Whatever the history holds, each favourite (their names all different) is offered
/// under its name, standing for its text.
pub proof fn lemma_favourites_offered(
    history: Seq<(Seq<char>, ClipboardEntryView)>,
    favourites: Seq<(Seq<char>, Seq<char>)>,
    j: int,
)
    requires
        keys_unique(favourites),
        0 <= j < favourites.len(),
    ensures
        lookup(
            insert_all(history, favourites.map_values(|p: (Seq<char>, Seq<char>)| favourite_entry_pair(p))),
            favourites[j].0,
        ) == Some(favourite_entry_pair(favourites[j]).1),
{
    let added = favourites.map_values(|p: (Seq<char>, Seq<char>)| favourite_entry_pair(p));
    assert(keys_unique(added)) by {
        assert forall|a: int, b: int| 0 <= a < b < added.len() implies added[a].0 != added[b].0 by {
            assert(added[a].0 == favourites[a].0 && added[b].0 == favourites[b].0);
        }
    }
    lemma_insert_all_lookup(history, added, j);
}

/// A menu text chosen as a line of output (nonempty, not ending in a line break or a
/// carriage return) is read back as that text.
pub proof fn lemma_menu_choice_of_line(key: Seq<char>)
    requires
        key.len() > 0,
        key.last() != '\n',
        key.last() != '\r',
    ensures
        menu_choice_text(key.push('\n')) == Some(key),
        menu_choice_text(key) == Some(key),
{
    assert(key.push('\n').drop_last() =~= key);
    assert(strip_trailing(key.push('\n'), '\n') == strip_trailing(key, '\n'));
}

} // verus!
