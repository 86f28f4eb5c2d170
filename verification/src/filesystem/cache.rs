use vstd::prelude::*;
use indexmap::IndexMap;
use crate::clipboard::{ClipboardEntry, ClipboardEntryView, ContentType, ContentTypeView};
use crate::ordered_map::{entries_insert, entries_new, entry_pairs, insert_all};
use crate::paths::ends_with;
use crate::paths::{decimal, decimal_string, join_path, lemma_decimal_digits, path_join};
use crate::text::{
    chars_of, concat, first_chars, replace_char, replace_char_in, string_from_range, trim,
    unicode_trim,
};

verus! {

/// The longest text, in characters, that names a text entry in the menu.
pub const ENTRY_KEY_LENGTH: usize = 50;

/// The name of the file that holds the plain text of a recorded entry.
pub const TEXT_FILE_NAME: &'static str = "text.plain";

/// The stored clipboard history: one directory per recording, named by its time.
pub struct CacheManager {
    pub cache_dir: String,
}

/// One recorded entry as found in the cache: the name of its directory, and the text it
/// holds where it holds plain text.
#[derive(Debug, Clone, PartialEq, Eq)]
pub struct CacheItem {
    pub timestamp: String,
    pub text: Option<String>,
}

/// Where a recording is stored: its time as text, its directory, and the file that
/// holds it.
#[derive(Debug, Clone, PartialEq, Eq)]
pub struct CacheLocation {
    pub timestamp: String,
    pub directory: String,
    pub file: String,
}

/// The menu text of a text entry: the text without white space at its ends, each line
/// break made a space, cut after fifty characters.
pub open spec fn text_entry_key(content: Seq<char>) -> Seq<char> {
    first_chars(replace_char(unicode_trim(content), '\n', ' '), ENTRY_KEY_LENGTH as nat)
}

/// The menu text of an entry that holds no plain text.
pub open spec fn binary_entry_key(timestamp: Seq<char>) -> Seq<char> {
    "Binary Content @ "@ + timestamp
}

/// The menu text and the entry that a cache item stands for.
pub open spec fn cache_item_pair(item: CacheItem) -> (Seq<char>, ClipboardEntryView) {
    match item.text {
        Some(content) => (
            text_entry_key(content@),
            ClipboardEntryView {
                display_text: content@,
                timestamp: item.timestamp@,
                content_type: ContentTypeView::Text(content@),
            },
        ),
        None => (
            binary_entry_key(item.timestamp@),
            ClipboardEntryView {
                display_text: binary_entry_key(item.timestamp@),
                timestamp: item.timestamp@,
                content_type: ContentTypeView::Binary { timestamp: item.timestamp@ },
            },
        ),
    }
}

/// The name of the file that holds a recording of the given MIME type: the type with
/// each `/` made a `.`.
pub open spec fn mime_file_name(mime_type: Seq<char>) -> Seq<char> {
    replace_char(mime_type, '/', '.')
}

/// The menu text of a text entry.
pub fn text_entry_key_of(content: &str) -> (k: String)
    ensures
        k@ == text_entry_key(content@),
        k@.len() == if unicode_trim(content@).len() <= ENTRY_KEY_LENGTH {
            unicode_trim(content@).len() as int
        } else {
            ENTRY_KEY_LENGTH as int
        },
        forall|i: int| 0 <= i < k@.len() ==> #[trigger] k@[i] == if unicode_trim(content@)[i] == '\n' {
            ' '
        } else {
            unicode_trim(content@)[i]
        },
{
    proof {
        lemma_text_entry_key_prefix(content@);
    }
    let trimmed = trim(content);
    let flat = replace_char_in(trimmed, '\n', ' ');
    let v = chars_of(flat.as_str());
    let n: usize = if v.len() <= ENTRY_KEY_LENGTH {
        v.len()
    } else {
        ENTRY_KEY_LENGTH
    };
    let k = string_from_range(&v, 0, n);
    assert(v@.subrange(0, v@.len() as int) =~= v@);
    k
}

impl CacheManager {
    /// The manager of the history stored in `cache_dir`.
    pub fn new(cache_dir: String) -> (m: CacheManager)
        ensures
            m.cache_dir == cache_dir,
    {
        CacheManager { cache_dir }
    }

    /// Where a recording of `mime_type` made at `millis` milliseconds since the epoch is
    /// stored: a directory named by the decimal time in the cache, and in it a file
    /// named by the MIME type.
    pub fn cache_location(&self, millis: u128, mime_type: &str) -> (l: CacheLocation)
        ensures
            l.timestamp@ == decimal(millis as nat),
            l.directory@ == path_join(self.cache_dir@, decimal(millis as nat)),
            l.file@ == path_join(l.directory@, mime_file_name(mime_type@)),
            l.file@.len() == l.directory@.len() + 1 + mime_type@.len(),
            l.file@.subrange(0, l.directory@.len() as int) == l.directory@,
            l.file@[l.directory@.len() as int] == '/',
            forall|i: int| 0 <= i < mime_type@.len() ==> #[trigger] l.file@[l.directory@.len() + 1 + i]
                == if mime_type@[i] == '/' {
                '.'
            } else {
                mime_type@[i]
            },
    {
        proof {
            lemma_recording_file_in_directory(self.cache_dir@, millis as nat, mime_type@);
        }
        let timestamp = decimal_string(millis);
        let directory = join_path(self.cache_dir.as_str(), timestamp.as_str());
        let name = replace_char_in(mime_type, '/', '.');
        let file = join_path(directory.as_str(), name.as_str());
        CacheLocation { timestamp, directory, file }
    }

    /// The entries that the menu offers for the recordings found in the cache, in the
    /// order found: each keyed by its menu text, a later one replacing an earlier one
    /// with the same text in that earlier one's place.
    pub fn entries_from_listing(items: Vec<CacheItem>) -> (m: IndexMap<String, ClipboardEntry>)
        ensures
            entry_pairs(m) == insert_all(Seq::empty(), items@.map_values(|i: CacheItem| cache_item_pair(i))),
    {
        let ghost all = items@.map_values(|i: CacheItem| cache_item_pair(i));
        let mut m = entries_new();
        let mut i: usize = 0;
        while i < items.len()
            invariant
                i <= items@.len(),
                all == items@.map_values(|i: CacheItem| cache_item_pair(i)),
                entry_pairs(m) == insert_all(Seq::empty(), all.take(i as int)),
            decreases items@.len() - i,
        {
            let item = &items[i];
            match &item.text {
                Some(content) => {
                    let key = text_entry_key_of(content.as_str());
                    let entry = ClipboardEntry {
                        display_text: content.clone(),
                        timestamp: item.timestamp.clone(),
                        content_type: ContentType::Text(content.clone()),
                    };
                    entries_insert(&mut m, key, entry);
                },
                None => {
                    let key = concat("Binary Content @ ", item.timestamp.as_str());
                    let entry = ClipboardEntry {
                        display_text: key.clone(),
                        timestamp: item.timestamp.clone(),
                        content_type: ContentType::Binary { timestamp: item.timestamp.clone() },
                    };
                    entries_insert(&mut m, key, entry);
                },
            }
            assert(all.take(i + 1).drop_last() =~= all.take(i as int));
            i = i + 1;
        }
        assert(all.take(items@.len() as int) =~= all);
        m
    }
}

/// How a recording is laid out in the cache: its directory is named by the decimal
/// time, all digits, and its file lies directly in that directory, under a name that
/// holds no `/`.
pub proof fn lemma_cache_layout(cache_dir: Seq<char>, millis: nat, mime_type: Seq<char>)
    ensures
        forall|i: int| 0 <= i < decimal(millis).len() ==> '0' <= #[trigger] decimal(millis)[i] <= '9',
        !mime_file_name(mime_type).contains('/'),
        path_join(path_join(cache_dir, decimal(millis)), mime_file_name(mime_type))
            == path_join(cache_dir, decimal(millis)) + seq!['/'] + mime_file_name(mime_type),
{
    lemma_decimal_digits(millis);
    let name = mime_file_name(mime_type);
    let dir = path_join(cache_dir, decimal(millis));
    assert(decimal(millis)[0] != '/');
    assert(dir.last() == decimal(millis).last());
    if name.contains('/') {
        let i: int = choose|i: int| 0 <= i < name.len() && name[i] == '/';
        assert(name[i] == (if mime_type[i] == '/' { '.' } else { mime_type[i] }));
    }
}

/// The menu text of a text entry has at most fifty characters.
pub proof fn lemma_text_entry_key_short(content: Seq<char>)
    ensures
        text_entry_key(content).len() <= ENTRY_KEY_LENGTH,
{
}

/// A recording stored as `mime_type` with `content` at `millis` is read back as one entry.
/// Its directory lies in the cache, named by the decimal time, which becomes the entry's
/// time; the file of a `text/plain` recording is `text.plain`. Where that file is found
/// (and read as the UTF-8 text it holds), the entry is a text entry keyed by its menu
/// text; otherwise it is a binary entry keyed by "Binary Content @ " and the time.
pub proof fn lemma_stored_recording_read_back(
    cache_dir: Seq<char>,
    millis: nat,
    mime_type: Seq<char>,
    content: Seq<u8>,
    item: CacheItem,
)
    requires
        item.timestamp@ == decimal(millis),
        (item.text is Some) <==> mime_file_name(mime_type) == TEXT_FILE_NAME@,
        item.text matches Some(c) ==> vstd::utf8::valid_utf8(content) && c@ == vstd::utf8::decode_utf8(content),
    ensures
        mime_file_name("text/plain"@) == TEXT_FILE_NAME@,
        ends_with(path_join(cache_dir, decimal(millis)), item.timestamp@),
        !item.timestamp@.contains('/'),
        insert_all(Seq::empty(), seq![item].map_values(|i: CacheItem| cache_item_pair(i))) == seq![
            match item.text {
                Some(_) => (
                    text_entry_key(vstd::utf8::decode_utf8(content)),
                    ClipboardEntryView {
                        display_text: vstd::utf8::decode_utf8(content),
                        timestamp: decimal(millis),
                        content_type: ContentTypeView::Text(vstd::utf8::decode_utf8(content)),
                    },
                ),
                None => (
                    binary_entry_key(decimal(millis)),
                    ClipboardEntryView {
                        display_text: binary_entry_key(decimal(millis)),
                        timestamp: decimal(millis),
                        content_type: ContentTypeView::Binary { timestamp: decimal(millis) },
                    },
                ),
            },
        ],
{
    reveal_strlit("text/plain");
    reveal_strlit("text.plain");
    assert(mime_file_name("text/plain"@) =~= TEXT_FILE_NAME@);
    lemma_decimal_digits(millis);
    crate::paths::lemma_join_ends_with_part(cache_dir, decimal(millis));
    if decimal(millis).contains('/') {
        let i: int = choose|i: int| 0 <= i < decimal(millis).len() && decimal(millis)[i] == '/';
        assert('0' <= decimal(millis)[i] <= '9');
    }
    let added = seq![item].map_values(|i: CacheItem| cache_item_pair(i));
    assert(added.len() == 1 && added.last() == cache_item_pair(item));
    assert(added.drop_last() =~= Seq::<(Seq<char>, ClipboardEntryView)>::empty());
    let none = Seq::<(Seq<char>, ClipboardEntryView)>::empty();
    assert(insert_all(none, added.drop_last()) == none);
    assert(crate::ordered_map::key_index(none, cache_item_pair(item).0) is None);
    assert(insert_all(Seq::empty(), added) =~= seq![cache_item_pair(item)]);
}

/// The menu text of a recorded text is its beginning: the trimmed text's first fifty
/// characters (all of them where it has fewer), each line break made a space and every
/// other character kept, in its place.
pub proof fn lemma_text_entry_key_prefix(content: Seq<char>)
    ensures
        text_entry_key(content).len() == if unicode_trim(content).len() <= ENTRY_KEY_LENGTH {
            unicode_trim(content).len() as int
        } else {
            ENTRY_KEY_LENGTH as int
        },
        forall|i: int| 0 <= i < text_entry_key(content).len() ==> #[trigger] text_entry_key(content)[i]
            == if unicode_trim(content)[i] == '\n' {
            ' '
        } else {
            unicode_trim(content)[i]
        },
{
}

/// The file of a recording lies directly in the recording's directory, after one `/`,
/// under a name exactly as long as the MIME type and equal to it character for
/// character, except that each `/` becomes `.`: a nonempty MIME type never gives an
/// empty name.
pub proof fn lemma_recording_file_in_directory(cache_dir: Seq<char>, millis: nat, mime_type: Seq<char>)
    ensures
        ({
            let dir = path_join(cache_dir, decimal(millis));
            let file = path_join(dir, mime_file_name(mime_type));
            &&& file.len() == dir.len() + 1 + mime_type.len()
            &&& file.subrange(0, dir.len() as int) == dir
            &&& file[dir.len() as int] == '/'
            &&& forall|i: int| 0 <= i < mime_type.len() ==> #[trigger] file[dir.len() + 1 + i]
                == if mime_type[i] == '/' {
                '.'
            } else {
                mime_type[i]
            }
        }),
{
    lemma_cache_layout(cache_dir, millis, mime_type);
    let dir = path_join(cache_dir, decimal(millis));
    let file = path_join(dir, mime_file_name(mime_type));
    assert(file.subrange(0, dir.len() as int) =~= dir);
}

} // verus!
