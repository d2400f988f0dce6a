//! The symbol dictionary: categories of documented symbols, prefix completion
//! and exact-match hover lookup.

use vstd::prelude::*;
use vstd::string::*;
use vstd::utf8::*;
use crate::assoc::{
    find_key, has_distinct_keys, has_key, insert_entry, keys_distinct, lemma_position, lookup,
    position,
};
use crate::utf8_text::{
    bytes_of, lemma_ascii_byte_boundaries, lemma_ascii_byte_in_text, lemma_ascii_char_bytes,
    lemma_bytes_of_concat, substring, text_starts_with,
};
use crate::whitespace::{trim_text, trimmed};
pub use crate::lexer::{get_current_word_for_completion, get_word_at_cursor};

verus! {

/// A category: what it is about, and its symbols with their documentation.
#[derive(Debug, Clone)]
pub struct CategoryData {
    pub description: String,
    pub items: Vec<(String, String)>,
}

/// One completion candidate.
#[derive(Debug, Clone)]
pub struct CompletionItem {
    pub label: String,
    pub documentation: String,
}

/// The dictionary: the categories by name, and every symbol of every category
/// by its own name.
pub struct SapfDictionary {
    categories: Vec<(String, CategoryData)>,
    all_keywords: Vec<(String, String)>,
}

/// `prefix` starts `text`.
pub open spec fn starts_with(text: Seq<char>, prefix: Seq<char>) -> bool {
    prefix.is_prefix_of(text)
}

/// A candidate as a pair of label and documentation.
pub open spec fn item_view(c: CompletionItem) -> (Seq<char>, Seq<char>) {
    (c.label@, c.documentation@)
}

/// A list of candidates as pairs of label and documentation.
pub open spec fn items_view(v: Seq<CompletionItem>) -> Seq<(Seq<char>, Seq<char>)> {
    Seq::new(v.len(), |i: int| item_view(v[i]))
}

/// The entries whose key starts with `prefix`, in the order of the list.
pub open spec fn matching(v: Seq<(String, String)>, prefix: Seq<char>) -> Seq<
    (Seq<char>, Seq<char>),
>
    decreases v.len(),
{
    if v.len() == 0 {
        Seq::empty()
    } else if starts_with(v.last().0@, prefix) {
        matching(v.drop_last(), prefix).push((v.last().0@, v.last().1@))
    } else {
        matching(v.drop_last(), prefix)
    }
}

/// The categories whose name starts with `prefix`, in the order of the table:
/// each as its name followed by a dot, with its description.
pub open spec fn category_matches(v: Seq<(String, CategoryData)>, prefix: Seq<char>) -> Seq<
    (Seq<char>, Seq<char>),
>
    decreases v.len(),
{
    if v.len() == 0 {
        Seq::empty()
    } else if starts_with(v.last().0@, prefix) {
        category_matches(v.drop_last(), prefix).push(
            (v.last().0@.push('.'), v.last().1.description@),
        )
    } else {
        category_matches(v.drop_last(), prefix)
    }
}

/// The documentation of a symbol over all categories: that of the last
/// category of the table that has the symbol.
pub open spec fn flat_lookup(v: Seq<(String, CategoryData)>, key: Seq<char>) -> Option<Seq<char>>
    decreases v.len(),
{
    if v.len() == 0 {
        None
    } else {
        match lookup(v.last().1.items@, key) {
            Some(doc) => Some(doc),
            None => flat_lookup(v.drop_last(), key),
        }
    }
}

/// The offset of the first dot at or after `from`, or the length where there
/// is none.
pub open spec fn dot_from(bytes: Seq<u8>, from: int) -> int
    decreases bytes.len() - from,
{
    if from < 0 || from >= bytes.len() {
        bytes.len() as int
    } else if bytes[from] == 0x2e {
        from
    } else {
        dot_from(bytes, from + 1)
    }
}

/// The query has a dot among its bytes.
pub open spec fn has_dot(query: Seq<char>) -> bool {
    dot_from(bytes_of(query), 0) < bytes_of(query).len()
}

/// The part of a query before its first dot.
pub open spec fn query_category(query: Seq<char>) -> Seq<char> {
    decode_utf8(bytes_of(query).subrange(0, dot_from(bytes_of(query), 0)))
}

/// The part of a query after its first dot, without the white space at
/// either end.
pub open spec fn query_item_prefix(query: Seq<char>) -> Seq<char> {
    trimmed(
        decode_utf8(
            bytes_of(query).subrange(
                dot_from(bytes_of(query), 0) + 1,
                bytes_of(query).len() as int,
            ),
        ),
    )
}

/// The offset that `dot_from` gives holds a dot, unless it is the length,
/// and no dot stands between `from` and it.
pub proof fn lemma_dot_from(bytes: Seq<u8>, from: int)
    requires
        0 <= from <= bytes.len(),
    ensures
        from <= dot_from(bytes, from) <= bytes.len(),
        dot_from(bytes, from) < bytes.len() ==> bytes[dot_from(bytes, from)] == 0x2e,
        forall|i: int| from <= i < dot_from(bytes, from) ==> #[trigger] bytes[i] != 0x2e,
    decreases bytes.len() - from,
{
    if from < bytes.len() && bytes[from] != 0x2e {
        lemma_dot_from(bytes, from + 1);
    }
}

/// A query has a dot among its bytes exactly when it has one among its
/// characters.
pub proof fn lemma_has_dot(query: Seq<char>)
    ensures
        has_dot(query) <==> query.contains('.'),
{
    let b = bytes_of(query);
    lemma_dot_from(b, 0);
    lemma_ascii_byte_in_text(query, 0x2e);
    assert(0x2eu8 as char == '.');
    if has_dot(query) {
        assert(b[dot_from(b, 0)] == 0x2e);
        assert(b.contains(0x2eu8));
    }
    if b.contains(0x2eu8) {
        let i = choose|i: int| 0 <= i < b.len() && b[i] == 0x2eu8;
        assert(b[i] == 0x2e);
    }
}

/// A query made of a name without a dot, a dot and a rest has the name as
/// its category and the rest, trimmed, as the start of the symbol.
pub proof fn lemma_query_parts(category: Seq<char>, rest: Seq<char>)
    requires
        !category.contains('.'),
    ensures
        has_dot(category + seq!['.'] + rest),
        query_category(category + seq!['.'] + rest) == category,
        query_item_prefix(category + seq!['.'] + rest) == trimmed(rest),
{
    let query = category + seq!['.'] + rest;
    let cb = bytes_of(category);
    let rb = bytes_of(rest);
    let b = bytes_of(query);
    assert(0x2eu8 as char == '.');
    lemma_ascii_char_bytes(0x2e);
    lemma_bytes_of_concat(category + seq!['.'], rest);
    lemma_bytes_of_concat(category, seq!['.']);
    assert(b =~= cb + seq![0x2eu8] + rb);
    lemma_has_dot(category);
    lemma_dot_from(cb, 0);
    lemma_dot_from(b, 0);
    let d = dot_from(b, 0);
    assert(b[cb.len() as int] == 0x2e);
    assert forall|i: int| 0 <= i < cb.len() implies #[trigger] b[i] != 0x2e by {
        assert(b[i] == cb[i]);
    }
    assert(d == cb.len());
    assert(b.subrange(0, d) =~= cb);
    assert(b.subrange(d + 1, b.len() as int) =~= rb);
    encode_utf8_decode_utf8(category);
    encode_utf8_decode_utf8(rest);
}

/// The candidate is an entry of the list whose key starts with the prefix.
pub open spec fn is_matching_entry(
    v: Seq<(String, String)>,
    prefix: Seq<char>,
    item: (Seq<char>, Seq<char>),
) -> bool {
    exists|k: int|
        0 <= k < v.len() && starts_with((#[trigger] v[k]).0@, prefix) && item == (
            v[k].0@,
            v[k].1@,
        )
}

/// The candidate is a category of the table whose name starts with the
/// prefix: its name followed by a dot, with its description.
pub open spec fn is_matching_category(
    v: Seq<(String, CategoryData)>,
    prefix: Seq<char>,
    item: (Seq<char>, Seq<char>),
) -> bool {
    exists|k: int|
        0 <= k < v.len() && starts_with((#[trigger] v[k]).0@, prefix) && item == (
            v[k].0@.push('.'),
            v[k].1.description@,
        )
}

/// Each entry that `matching` lists stands in the list under a key that
/// starts with the prefix.
pub proof fn lemma_matching_sound(v: Seq<(String, String)>, prefix: Seq<char>)
    ensures
        forall|i: int|
            0 <= i < matching(v, prefix).len() ==> is_matching_entry(
                v,
                prefix,
                #[trigger] matching(v, prefix)[i],
            ),
    decreases v.len(),
{
    if v.len() > 0 {
        let w = v.drop_last();
        lemma_matching_sound(w, prefix);
        assert forall|i: int| 0 <= i < matching(v, prefix).len() implies is_matching_entry(
            v,
            prefix,
            #[trigger] matching(v, prefix)[i],
        ) by {
            if i < matching(w, prefix).len() {
                assert(matching(v, prefix)[i] == matching(w, prefix)[i]);
                assert(is_matching_entry(w, prefix, matching(w, prefix)[i]));
                let k = choose|k: int|
                    0 <= k < w.len() && starts_with((#[trigger] w[k]).0@, prefix) && matching(
                        w,
                        prefix,
                    )[i] == (w[k].0@, w[k].1@);
                assert(w[k] == v[k]);
            } else {
                let k = v.len() - 1;
                assert(v[k] == v.last());
            }
        }
    }
}

/// Each candidate that `category_matches` lists is a category of the table
/// whose name starts with the prefix.
pub proof fn lemma_category_matches_sound(v: Seq<(String, CategoryData)>, prefix: Seq<char>)
    ensures
        forall|i: int|
            0 <= i < category_matches(v, prefix).len() ==> is_matching_category(
                v,
                prefix,
                #[trigger] category_matches(v, prefix)[i],
            ),
    decreases v.len(),
{
    if v.len() > 0 {
        let w = v.drop_last();
        lemma_category_matches_sound(w, prefix);
        assert forall|i: int|
            0 <= i < category_matches(v, prefix).len() implies is_matching_category(
            v,
            prefix,
            #[trigger] category_matches(v, prefix)[i],
        ) by {
            if i < category_matches(w, prefix).len() {
                assert(category_matches(v, prefix)[i] == category_matches(w, prefix)[i]);
                assert(is_matching_category(w, prefix, category_matches(w, prefix)[i]));
                let k = choose|k: int|
                    0 <= k < w.len() && starts_with((#[trigger] w[k]).0@, prefix)
                        && category_matches(w, prefix)[i] == (
                        w[k].0@.push('.'),
                        w[k].1.description@,
                    );
                assert(w[k] == v[k]);
            } else {
                let k = v.len() - 1;
                assert(v[k] == v.last());
            }
        }
    }
}

/// A symbol has documentation over all categories exactly when some
/// category has it.
pub proof fn lemma_flat_lookup(v: Seq<(String, CategoryData)>, key: Seq<char>)
    ensures
        flat_lookup(v, key) is Some <==> exists|c: int|
            0 <= c < v.len() && has_key((#[trigger] v[c]).1.items@, key),
    decreases v.len(),
{
    if v.len() > 0 {
        let w = v.drop_last();
        lemma_flat_lookup(w, key);
        lemma_position(v.last().1.items@, key);
        assert(v[v.len() - 1] == v.last());
        if flat_lookup(v, key) is Some {
            if lookup(v.last().1.items@, key) is None {
                let c = choose|c: int| 0 <= c < w.len() && has_key((#[trigger] w[c]).1.items@, key);
                assert(w[c] == v[c]);
            }
        } else {
            if exists|c: int| 0 <= c < v.len() && has_key((#[trigger] v[c]).1.items@, key) {
                let c = choose|c: int| 0 <= c < v.len() && has_key((#[trigger] v[c]).1.items@, key);
                if c < w.len() {
                    assert(w[c] == v[c]);
                }
            }
        }
    }
}

/// A table is a mapping: no category name occurs twice, and within a category
/// no symbol does.
pub open spec fn is_mapping(table: Seq<(String, CategoryData)>) -> bool {
    &&& keys_distinct(table)
    &&& forall|c: int| 0 <= c < table.len() ==> keys_distinct((#[trigger] table[c]).1.items@)
}

/// The text of an optional string.
pub open spec fn option_text(o: Option<String>) -> Option<Seq<char>> {
    match o {
        Some(s) => Some(s@),
        None => None,
    }
}

/// Whether a table is a mapping.
pub fn table_is_mapping(table: &Vec<(String, CategoryData)>) -> (r: bool)
    ensures
        r == is_mapping(table@),
{
    if !has_distinct_keys(table) {
        return false;
    }
    let mut c: usize = 0;
    while c < table.len()
        invariant
            c <= table@.len(),
            forall|k: int| 0 <= k < c ==> keys_distinct((#[trigger] table@[k]).1.items@),
        decreases table@.len() - c,
    {
        if !has_distinct_keys(&table[c].1.items) {
            return false;
        }
        c += 1;
    }
    true
}

/// Appends to `items` the entries whose key starts with `prefix`.
fn push_matching(items: &mut Vec<CompletionItem>, entries: &Vec<(String, String)>, prefix: &str)
    ensures
        items_view(final(items)@) == items_view(old(items)@) + matching(entries@, prefix@),
{
    let ghost before = items@;
    let mut i: usize = 0;
    assert(items_view(items@) =~= items_view(before) + matching(entries@.take(0), prefix@));
    while i < entries.len()
        invariant
            i <= entries@.len(),
            items_view(items@) == items_view(before) + matching(
                entries@.take(i as int),
                prefix@,
            ),
        decreases entries@.len() - i,
    {
        assert(entries@.take(i + 1).drop_last() =~= entries@.take(i as int));
        assert(entries@.take(i + 1).last() == entries@[i as int]);
        let ghost shown = items@;
        if text_starts_with(entries[i].0.as_str(), prefix) {
            let item = CompletionItem {
                label: entries[i].0.clone(),
                documentation: entries[i].1.clone(),
            };
            items.push(item);
            assert(items_view(items@) =~= items_view(shown).push(item_view(item)));
        }
        i += 1;
        assert(items_view(items@) =~= items_view(before) + matching(
            entries@.take(i as int),
            prefix@,
        ));
    }
    assert(entries@.take(i as int) =~= entries@);
}

/// Appends to `items` a candidate for each category whose name starts with
/// `prefix`.
fn push_category_matches(
    items: &mut Vec<CompletionItem>,
    table: &Vec<(String, CategoryData)>,
    prefix: &str,
)
    ensures
        items_view(final(items)@) == items_view(old(items)@) + category_matches(
            table@,
            prefix@,
        ),
{
    let ghost before = items@;
    let mut i: usize = 0;
    assert(items_view(items@) =~= items_view(before) + category_matches(table@.take(0), prefix@));
    while i < table.len()
        invariant
            i <= table@.len(),
            items_view(items@) == items_view(before) + category_matches(
                table@.take(i as int),
                prefix@,
            ),
        decreases table@.len() - i,
    {
        assert(table@.take(i + 1).drop_last() =~= table@.take(i as int));
        assert(table@.take(i + 1).last() == table@[i as int]);
        let ghost shown = items@;
        if text_starts_with(table[i].0.as_str(), prefix) {
            let mut label = table[i].0.clone();
            label.append(".");
            proof {
                reveal_strlit(".");
                assert("."@ =~= seq!['.']);
                assert(label@ =~= table@[i as int].0@.push('.'));
            }
            let item = CompletionItem { label, documentation: table[i].1.description.clone() };
            items.push(item);
            assert(items_view(items@) =~= items_view(shown).push(item_view(item)));
        }
        i += 1;
        assert(items_view(items@) =~= items_view(before) + category_matches(
            table@.take(i as int),
            prefix@,
        ));
    }
    assert(table@.take(i as int) =~= table@);
}

/// The offset of the first dot, or the length where there is none.
fn find_dot(bytes: &[u8]) -> (r: usize)
    ensures
        r == dot_from(bytes@, 0),
        r <= bytes@.len(),
        r < bytes@.len() ==> bytes@[r as int] == 0x2e,
{
    let mut i: usize = 0;
    while i < bytes.len() && bytes[i] != 0x2e
        invariant
            i <= bytes@.len(),
            dot_from(bytes@, 0) == dot_from(bytes@, i as int),
        decreases bytes@.len() - i,
    {
        i += 1;
    }
    i
}

impl SapfDictionary {
    /// The categories by name, in the order of the table.
    pub closed spec fn table(&self) -> Seq<(String, CategoryData)> {
        self.categories@
    }

    /// Every symbol of every category with its documentation.
    pub closed spec fn symbols(&self) -> Seq<(String, String)> {
        self.all_keywords@
    }

    /// The table is a mapping, no symbol is listed twice, and a symbol is
    /// listed exactly when some category has it, with the documentation that
    /// the last such category gives it.
    pub open spec fn wf(&self) -> bool {
        &&& is_mapping(self.table())
        &&& keys_distinct(self.symbols())
        &&& forall|key: Seq<char>| #[trigger]
            lookup(self.symbols(), key) == flat_lookup(self.table(), key)
    }

    /// What a completion query returns. A query with a dot names a category
    /// before its first dot and, after it, the start of a symbol of that
    /// category, white space at either end left aside. A query without one is
    /// the start of a category name or of any symbol; categories come first.
    pub open spec fn completions_of(&self, query: Seq<char>) -> Seq<(Seq<char>, Seq<char>)> {
        if has_dot(query) {
            match position(self.table(), query_category(query)) {
                Some(c) => matching(self.table()[c].1.items@, query_item_prefix(query)),
                None => Seq::empty(),
            }
        } else {
            category_matches(self.table(), query) + matching(self.symbols(), query)
        }
    }

    /// The symbols of the category of the given name; none where the table
    /// has no such category.
    pub open spec fn category_items(&self, name: Seq<char>) -> Seq<(String, String)> {
        match position(self.table(), name) {
            Some(c) => self.table()[c].1.items@,
            None => Seq::empty(),
        }
    }

    /// What hovering over a word shows: the description of the category of
    /// that name, else the documentation of the symbol of that name.
    pub open spec fn hover_of(&self, word: Seq<char>) -> Option<Seq<char>> {
        match position(self.table(), word) {
            Some(c) => Some(self.table()[c].1.description@),
            None => lookup(self.symbols(), word),
        }
    }

    /// A query without a dot yields nothing but categories whose name starts
    /// with the query, each as its name and a dot with its description, and
    /// symbols whose name starts with the query, each with its documentation.
    pub proof fn lemma_completions_without_dot(&self, query: Seq<char>)
        requires
            !query.contains('.'),
        ensures
            self.completions_of(query) == category_matches(self.table(), query) + matching(
                self.symbols(),
                query,
            ),
            forall|i: int|
                0 <= i < self.completions_of(query).len() ==> {
                    ||| is_matching_category(
                        self.table(),
                        query,
                        #[trigger] self.completions_of(query)[i],
                    )
                    ||| is_matching_entry(self.symbols(), query, self.completions_of(query)[i])
                },
    {
        lemma_has_dot(query);
        lemma_category_matches_sound(self.table(), query);
        lemma_matching_sound(self.symbols(), query);
        let a = category_matches(self.table(), query);
        let b = matching(self.symbols(), query);
        assert forall|i: int| 0 <= i < self.completions_of(query).len() implies {
            ||| is_matching_category(
                self.table(),
                query,
                #[trigger] self.completions_of(query)[i],
            )
            ||| is_matching_entry(self.symbols(), query, self.completions_of(query)[i])
        } by {
            if i < a.len() {
                assert((a + b)[i] == a[i]);
            } else {
                assert((a + b)[i] == b[i - a.len()]);
            }
        }
    }

    /// A query made of the name of a known category, a dot and a rest yields
    /// nothing but symbols of that category whose name starts with the
    /// rest, white space at either end of the rest left aside.
    pub proof fn lemma_completions_in_category(&self, category: Seq<char>, rest: Seq<char>)
        requires
            !category.contains('.'),
            has_key(self.table(), category),
        ensures
            forall|i: int|
                0 <= i < self.completions_of(category + seq!['.'] + rest).len()
                    ==> is_matching_entry(
                    self.category_items(category),
                    trimmed(rest),
                    #[trigger] self.completions_of(category + seq!['.'] + rest)[i],
                ),
    {
        lemma_query_parts(category, rest);
        lemma_position(self.table(), category);
        lemma_matching_sound(self.category_items(category), trimmed(rest));
    }

    /// A query made of a name that is no category's, a dot and a rest
    /// yields nothing.
    pub proof fn lemma_completions_unknown_category(&self, category: Seq<char>, rest: Seq<char>)
        requires
            !category.contains('.'),
            !has_key(self.table(), category),
        ensures
            self.completions_of(category + seq!['.'] + rest).len() == 0,
    {
        lemma_query_parts(category, rest);
        lemma_position(self.table(), category);
    }

    /// Hovering shows something exactly over the name of a category or of a
    /// symbol.
    pub proof fn lemma_hover_exact(&self, word: Seq<char>)
        ensures
            self.hover_of(word) is Some <==> has_key(self.table(), word) || has_key(
                self.symbols(),
                word,
            ),
    {
        lemma_position(self.table(), word);
        lemma_position(self.symbols(), word);
    }

    /// With a well-formed dictionary, a word is the name of a symbol exactly
    /// when some category has a symbol of that name.
    pub proof fn lemma_symbol_in_category(&self, word: Seq<char>)
        requires
            self.wf(),
        ensures
            has_key(self.symbols(), word) <==> exists|c: int|
                0 <= c < self.table().len() && has_key(
                    (#[trigger] self.table()[c]).1.items@,
                    word,
                ),
    {
        lemma_position(self.symbols(), word);
        assert(lookup(self.symbols(), word) == flat_lookup(self.table(), word));
        lemma_flat_lookup(self.table(), word);
    }

    /// Builds the dictionary from a table of categories.
    pub fn new(table: Vec<(String, CategoryData)>) -> (d: Self)
        requires
            is_mapping(table@),
        ensures
            d.wf(),
            d.table() == table@,
    {
        let all_keywords = Self::build_all_keywords(&table);
        SapfDictionary { categories: table, all_keywords }
    }

    /// Lists every symbol of every category once, a later category overriding
    /// an earlier one.
    pub fn build_all_keywords(categories: &Vec<(String, CategoryData)>) -> (all: Vec<
        (String, String),
    >)
        ensures
            keys_distinct(all@),
            forall|key: Seq<char>| #[trigger] lookup(all@, key) == flat_lookup(categories@, key),
    {
        let mut all: Vec<(String, String)> = Vec::new();
        let mut c: usize = 0;
        assert(categories@.take(0).len() == 0);
        while c < categories.len()
            invariant
                c <= categories@.len(),
                keys_distinct(all@),
                forall|key: Seq<char>| #[trigger]
                    lookup(all@, key) == flat_lookup(categories@.take(c as int), key),
            decreases categories@.len() - c,
        {
            let items = &categories[c].1.items;
            let ghost base = categories@.take(c as int);
            let mut j: usize = 0;
            assert(items@.take(0).len() == 0);
            while j < items.len()
                invariant
                    j <= items@.len(),
                    keys_distinct(all@),
                    forall|key: Seq<char>| #[trigger]
                        lookup(all@, key) == match lookup(items@.take(j as int), key) {
                            Some(doc) => Some(doc),
                            None => flat_lookup(base, key),
                        },
                decreases items@.len() - j,
            {
                let ghost earlier = all@;
                insert_entry(&mut all, items[j].0.clone(), items[j].1.clone());
                proof {
                    assert(items@.take(j + 1).drop_last() =~= items@.take(j as int));
                    assert(items@.take(j + 1).last() == items@[j as int]);
                    assert forall|key: Seq<char>| #[trigger]
                        lookup(all@, key) == match lookup(items@.take(j + 1), key) {
                            Some(doc) => Some(doc),
                            None => flat_lookup(base, key),
                        } by {
                        lemma_position(items@.take(j as int), key);
                        assert(lookup(earlier, key) == match lookup(items@.take(j as int), key) {
                            Some(doc) => Some(doc),
                            None => flat_lookup(base, key),
                        });
                    }
                }
                j += 1;
            }
            proof {
                assert(items@.take(j as int) =~= items@);
                assert(categories@.take(c + 1).drop_last() =~= base);
                assert(categories@.take(c + 1).last() == categories@[c as int]);
            }
            c += 1;
        }
        assert(categories@.take(c as int) =~= categories@);
        all
    }

    /// The completion candidates for a query.
    pub fn get_completions(&self, current_input: &str) -> (r: Vec<CompletionItem>)
        ensures
            items_view(r@) == self.completions_of(current_input@),
    {
        let mut items: Vec<CompletionItem> = Vec::new();
        let bytes = current_input.as_bytes();
        let dot = find_dot(bytes);
        assert(items_view(items@) =~= Seq::empty());
        if dot < bytes.len() {
            proof {
                encode_utf8_valid_utf8(current_input@);
                lemma_ascii_byte_boundaries(bytes@, dot as int);
                is_char_boundary_start_end_of_seq(bytes@);
            }
            let category_prefix = substring(current_input, 0, dot);
            let item_prefix = substring(current_input, dot + 1, bytes.len());
            proof {
                encode_utf8_decode_utf8(category_prefix@);
                encode_utf8_decode_utf8(item_prefix@);
            }
            match find_key(&self.categories, category_prefix.as_str()) {
                Some(c) => {
                    let wanted = trim_text(item_prefix.as_str());
                    push_matching(&mut items, &self.categories[c].1.items, wanted);
                    assert(items_view(items@) =~= self.completions_of(current_input@));
                },
                None => {},
            }
        } else {
            push_category_matches(&mut items, &self.categories, current_input);
            push_matching(&mut items, &self.all_keywords, current_input);
            assert(items_view(items@) =~= self.completions_of(current_input@));
        }
        items
    }

    /// What hovering over a word shows, if anything.
    pub fn get_hover_info(&self, word: &str) -> (r: Option<String>)
        ensures
            option_text(r) == self.hover_of(word@),
    {
        if let Some(c) = find_key(&self.categories, word) {
            return Some(self.categories[c].1.description.clone());
        }
        if let Some(i) = find_key(&self.all_keywords, word) {
            return Some(self.all_keywords[i].1.clone());
        }
        None
    }
}

} // verus!
