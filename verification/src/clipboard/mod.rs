pub mod recorder;
pub mod selector;

use vstd::prelude::*;
use indexmap::IndexMap;
use crate::cli::{recording_mode_named, RecordingMode};
use crate::configuration::Configuration;
use crate::error::Error;
use crate::ordered_map::{favourite_pairs, favourites_insert, favourites_new, insert_all, lemma_insert_all_unique};

verus! {

/// How one clipboard entry is stored.
#[derive(Debug, Clone, PartialEq, Eq)]
pub enum ContentType {
    Text(String),
    Binary { timestamp: String },
    Favorite(String),
}

/// What a [`ContentType`] holds, as text.
pub enum ContentTypeView {
    Text(Seq<char>),
    Binary { timestamp: Seq<char> },
    Favorite(Seq<char>),
}

impl View for ContentType {
    type V = ContentTypeView;

    open spec fn view(&self) -> ContentTypeView {
        match self {
            ContentType::Text(s) => ContentTypeView::Text(s@),
            ContentType::Binary { timestamp } => ContentTypeView::Binary { timestamp: timestamp@ },
            ContentType::Favorite(s) => ContentTypeView::Favorite(s@),
        }
    }
}

/// One entry of the clipboard history, as the selection menu offers it.
#[derive(Debug, Clone, PartialEq, Eq)]
pub struct ClipboardEntry {
    pub display_text: String,
    pub timestamp: String,
    pub content_type: ContentType,
}

/// What a [`ClipboardEntry`] holds, as text.
pub struct ClipboardEntryView {
    pub display_text: Seq<char>,
    pub timestamp: Seq<char>,
    pub content_type: ContentTypeView,
}

impl View for ClipboardEntry {
    type V = ClipboardEntryView;

    open spec fn view(&self) -> ClipboardEntryView {
        ClipboardEntryView {
            display_text: self.display_text@,
            timestamp: self.timestamp@,
            content_type: self.content_type@,
        }
    }
}

/// Which clipboard a recorder listens to.
#[derive(Debug, Clone, Copy, PartialEq, Eq, Structural)]
pub enum ListenerType {
    Primary,
    Clipboard,
}

/// The listeners that a recording mode starts, in order.
pub open spec fn listeners_of(mode: RecordingMode) -> Seq<ListenerType> {
    match mode {
        RecordingMode::Primary => seq![ListenerType::Primary],
        RecordingMode::Clipboard => seq![ListenerType::Clipboard],
        RecordingMode::Both => seq![ListenerType::Primary, ListenerType::Clipboard],
    }
}

/// The listener that a word names: "primary" or "0" the primary selection, anything
/// else the regular clipboard.
pub open spec fn listener_named(word: Seq<char>) -> ListenerType {
    if word == "primary"@ || word == "0"@ {
        ListenerType::Primary
    } else {
        ListenerType::Clipboard
    }
}

/// The name under which a listener is shown.
pub open spec fn listener_name(listener: ListenerType) -> Seq<char> {
    match listener {
        ListenerType::Primary => "primary"@,
        ListenerType::Clipboard => "clipboard"@,
    }
}

impl ListenerType {
    /// The listeners that `mode` starts, in order.
    pub fn for_mode(mode: RecordingMode) -> (v: Vec<ListenerType>)
        ensures
            v@ == listeners_of(mode),
    {
        let mut v: Vec<ListenerType> = Vec::new();
        match mode {
            RecordingMode::Primary => v.push(ListenerType::Primary),
            RecordingMode::Clipboard => v.push(ListenerType::Clipboard),
            RecordingMode::Both => {
                v.push(ListenerType::Primary);
                v.push(ListenerType::Clipboard);
            },
        }
        assert(v@ =~= listeners_of(mode));
        v
    }

    /// The listener that `word` names.
    pub fn from_name(word: &str) -> (l: ListenerType)
        ensures
            l == listener_named(word@),
            (l == ListenerType::Primary) <==> (word@ == "primary"@ || word@ == "0"@),
            (l == ListenerType::Clipboard) <==> !(word@ == "primary"@ || word@ == "0"@),
    {
        if crate::text::text_eq(word, "primary") || crate::text::text_eq(word, "0") {
            ListenerType::Primary
        } else {
            ListenerType::Clipboard
        }
    }

    /// The name under which the listener is shown.
    pub fn name(&self) -> (s: &'static str)
        ensures
            s@ == listener_name(*self),
    {
        match self {
            ListenerType::Primary => "primary",
            ListenerType::Clipboard => "clipboard",
        }
    }
}

impl<'a> From<&'a str> for ListenerType {
    fn from(word: &'a str) -> (l: ListenerType) {
        ListenerType::from_name(word)
    }
}

impl<'a> vstd::std_specs::convert::FromSpecImpl<&'a str> for ListenerType {
    open spec fn obeys_from_spec() -> bool {
        true
    }

    open spec fn from_spec(word: &'a str) -> ListenerType {
        listener_named(word@)
    }
}

impl<'a> From<&'a ListenerType> for &'static str {
    fn from(listener: &'a ListenerType) -> (s: &'static str) {
        match listener {
            ListenerType::Primary => "primary",
            ListenerType::Clipboard => "clipboard",
        }
    }
}

impl<'a> vstd::std_specs::convert::FromSpecImpl<&'a ListenerType> for &'static str {
    open spec fn obeys_from_spec() -> bool {
        true
    }

    open spec fn from_spec(listener: &'a ListenerType) -> &'static str {
        match listener {
            ListenerType::Primary => "primary",
            ListenerType::Clipboard => "clipboard",
        }
    }
}

/// What a recording session needs: the clipboards to listen to, where to store what
/// they hold, and how many entries to keep.
#[derive(Debug, Clone)]
pub struct RecordingConfig {
    pub listeners: Vec<ListenerType>,
    pub cache_dir: String,
    pub history_size: usize,
}

impl RecordingConfig {
    /// The configuration made of the three given parts.
    pub fn new(listeners: Vec<ListenerType>, cache_dir: String, history_size: usize) -> (c: RecordingConfig)
        ensures
            c.listeners == listeners,
            c.cache_dir == cache_dir,
            c.history_size == history_size,
    {
        RecordingConfig { listeners, cache_dir, history_size }
    }
}

/// What a selection session needs: where the history is stored, the menu program and
/// its arguments, and the favourites to offer beside the history.
pub struct SelectingConfig {
    pub cache_dir: String,
    pub launcher: String,
    pub launcher_args: Vec<String>,
    pub favorites: IndexMap<String, String>,
}

impl SelectingConfig {
    /// The configuration made of the four given parts.
    pub fn new(
        cache_dir: String,
        launcher: String,
        launcher_args: Vec<String>,
        favorites: IndexMap<String, String>,
    ) -> (c: SelectingConfig)
        ensures
            c.cache_dir == cache_dir,
            c.launcher == launcher,
            c.launcher_args == launcher_args,
            c.favorites == favorites,
    {
        SelectingConfig { cache_dir, launcher, launcher_args, favorites }
    }
}

/// What the program does when it runs: record the clipboards or offer the history.
pub enum ClipboardMode {
    Recording(RecordingConfig),
    Selecting(SelectingConfig),
}

/// The strings of `v`, cloned one by one.
fn clone_strings(v: &Vec<String>) -> (r: Vec<String>)
    ensures
        r@ == v@,
{
    let mut r: Vec<String> = Vec::new();
    let mut i: usize = 0;
    while i < v.len()
        invariant
            i <= v@.len(),
            r@ == v@.take(i as int),
        decreases v@.len() - i,
    {
        r.push(v[i].clone());
        i = i + 1;
        assert(r@ =~= v@.take(i as int));
    }
    assert(v@.take(v@.len() as int) =~= v@);
    r
}

/// The favourites as an ordered map: each name inserted in turn, in the order of the
/// configuration's list.
pub fn favourites_map(items: &Vec<(String, String)>) -> (m: IndexMap<String, String>)
    ensures
        favourite_pairs(m) == insert_all(
            Seq::empty(),
            items@.map_values(|p: (String, String)| (p.0@, p.1@)),
        ),
{
    let ghost all = items@.map_values(|p: (String, String)| (p.0@, p.1@));
    let mut m = favourites_new();
    let mut i: usize = 0;
    while i < items.len()
        invariant
            i <= items@.len(),
            all == items@.map_values(|p: (String, String)| (p.0@, p.1@)),
            favourite_pairs(m) == insert_all(Seq::empty(), all.take(i as int)),
        decreases items@.len() - i,
    {
        let key = items[i].0.clone();
        let value = items[i].1.clone();
        favourites_insert(&mut m, key, value);
        assert(all.take(i + 1).drop_last() =~= all.take(i as int));
        i = i + 1;
    }
    assert(all.take(items@.len() as int) =~= all);
    m
}

impl ClipboardMode {
    /// What the program does: with a recording mode, record the clipboards that it
    /// names into the configured cache, keeping the configured number of entries;
    /// without one, offer the history with the configured menu and favourites.
    pub fn mode(recording_mode: Option<RecordingMode>, config: &Configuration) -> (r: Result<ClipboardMode, Error>)
        ensures
            match recording_mode {
                Some(m) => r matches Ok(ClipboardMode::Recording(rc))
                    && rc.listeners@ == listeners_of(m)
                    && rc.cache_dir == config.defaults.cache_dir
                    && rc.history_size == config.core.history_size,
                None => r matches Ok(ClipboardMode::Selecting(sc))
                    && sc.cache_dir == config.defaults.cache_dir
                    && sc.launcher == config.core.launcher
                    && sc.launcher_args@ == config.core.launcher_args@
                    && favourite_pairs(sc.favorites) == insert_all(Seq::empty(), config.favourites.pairs()),
            },
    {
        match recording_mode {
            Some(mode) => Ok(ClipboardMode::Recording(RecordingConfig::new(
                ListenerType::for_mode(mode),
                config.defaults.cache_dir.clone(),
                config.core.history_size,
            ))),
            None => {
                let favorites = favourites_map(&config.favourites.items);
                Ok(ClipboardMode::Selecting(SelectingConfig::new(
                    config.defaults.cache_dir.clone(),
                    config.core.launcher.clone(),
                    clone_strings(&config.core.launcher_args),
                    favorites,
                )))
            },
        }
    }
}

/// A listener's shown name, read back, is that listener.
pub proof fn lemma_listener_name_round_trip(listener: ListenerType)
    ensures
        listener_named(listener_name(listener)) == listener,
{
    reveal_strlit("primary");
    reveal_strlit("clipboard");
    reveal_strlit("0");
    assert("clipboard"@.len() == 9 && "primary"@.len() == 7 && "0"@.len() == 1);
}

/// When no favourite name occurs twice, the menu's favourites are exactly the configured
/// ones, in the configured order.
pub proof fn lemma_selecting_keeps_favourites(config: Configuration)
    requires
        config.favourites.names_unique(),
    ensures
        insert_all(Seq::empty(), config.favourites.pairs()) == config.favourites.pairs(),
{
    lemma_insert_all_unique(config.favourites.pairs());
}

/// A word that names the recording of one clipboard names that clipboard's listener:
/// "primary" and "0" the primary selection; "clipboard" and "1" the regular clipboard.
/// Only "primary" and "0" name the primary selection; every other word names the regular
/// clipboard.
pub proof fn lemma_listener_words_agree_with_modes(word: Seq<char>)
    ensures
        recording_mode_named(word) == Some(RecordingMode::Primary) ==> listener_named(word) == ListenerType::Primary,
        recording_mode_named(word) == Some(RecordingMode::Clipboard) ==> listener_named(word) == ListenerType::Clipboard,
        (listener_named(word) == ListenerType::Primary) <==> (word == "primary"@ || word == "0"@),
{
    reveal_strlit("primary");
    reveal_strlit("clipboard");
    reveal_strlit("0");
    reveal_strlit("1");
    assert("clipboard"@.len() == 9 && "primary"@.len() == 7 && "0"@.len() == 1 && "1"@.len() == 1);
    assert("0"@[0] != "1"@[0]);
}

} // verus!
