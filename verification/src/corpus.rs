//! Reading the corpus from the texts that hold it: the word list, the table
//! of word frequencies and the page of past answers.

use crate::input::{is_valid_guess, is_word};
use crate::text::{
    distinct, is_lower_letter, lemma_bare_text_is_trimmed, lemma_distinct_properties,
    lemma_distinct_push, lines, lines_of, lowered, rows, spellings, split_once, split_once_at,
    text_of, to_lowercase, trim, trimmed,
};
use crate::word_set::WordSet;
use vstd::prelude::*;

verus! {

/// The word on a line of a word list: the line without the white space around
/// it, unless nothing is left.
pub open spec fn listed_word(line: Seq<char>) -> Option<Seq<char>> {
    if trimmed(line).len() > 0 {
        Some(trimmed(line))
    } else {
        None
    }
}

/// A word of the game stands for itself: a line that holds nothing else lists
/// it as it is, and as the text of a list item it is that past answer.
pub proof fn lemma_word_stands_for_itself(word: Seq<char>)
    requires
        is_word(word),
    ensures
        listed_word(word) == Some(word),
        past_answer(Some(word)) == Some(word),
{
    assert(is_lower_letter(word[0]) && is_lower_letter(word[4]));
    lemma_bare_text_is_trimmed(word);
    assert(lowered(word) =~= word) by {
        assert forall|i: int| 0 <= i < word.len() implies lowered(word)[i] == word[i] by {
            assert(is_lower_letter(word[i]));
        }
    }
}

/// The words of a word list: one on each line that is not blank, each word
/// once, in the order of their first occurrence.
pub open spec fn word_list(content: Seq<char>) -> Seq<Seq<char>> {
    distinct(lines_of(content).filter_map(|line: Seq<char>| listed_word(line)))
}

/// Appends `text` to `out` unless `out` holds it already. `seen` is the set of
/// the words of `out`, and `found` the words met so far, repeats included.
fn push_new(out: &mut Vec<String>, seen: &mut WordSet, text: String, Ghost(found): Ghost<
    Seq<Seq<char>>,
>)
    requires
        spellings(old(out)@) == distinct(found),
        old(seen)@ == spellings(old(out)@).to_set(),
    ensures
        spellings(final(out)@) == distinct(found.push(text@)),
        final(seen)@ == spellings(final(out)@).to_set(),
{
    let ghost before = spellings(out@);
    proof {
        lemma_distinct_properties(found);
        lemma_distinct_push(found, text@);
        assert(distinct(found).contains(text@) == found.contains(text@));
        assert(seen@.contains(text@) == before.contains(text@));
        before.lemma_push_to_set_commute(text@);
    }
    if seen.insert(text.as_str()) {
        out.push(text);
        assert(spellings(out@) =~= before.push(text@));
    } else {
        assert(seen@ =~= before.to_set());
    }
}

/// The words of the word list `content`.
pub fn parse_word_list(content: &str) -> (r: Vec<String>)
    ensures
        spellings(r@) == word_list(content@),
{
    let ghost pick = |line: Seq<char>| listed_word(line);
    let all = lines(content);
    let mut seen = WordSet::new();
    let mut out: Vec<String> = Vec::new();
    assert(spellings(out@) =~= distinct(rows(all@).take(0).filter_map(pick)));
    assert(spellings(out@).to_set() =~= seen@);
    for i in 0..all.len()
        invariant
            rows(all@) == lines_of(content@),
            forall|line: Seq<char>| #[trigger] pick(line) == listed_word(line),
            spellings(out@) == distinct(rows(all@).take(i as int).filter_map(pick)),
            seen@ == spellings(out@).to_set(),
    {
        let word = trim(&all[i]);
        let ghost found = rows(all@).take(i as int).filter_map(pick);
        proof {
            assert(rows(all@)[i as int] == all@[i as int]@);
            rows(all@).lemma_filter_map_take_succ(pick, i as int);
        }
        if word.len() > 0 {
            assert(found + seq![word@] =~= found.push(word@));
            push_new(&mut out, &mut seen, text_of(&word), Ghost(found));
        } else {
            assert(found + Seq::<Seq<char>>::empty() =~= found);
        }
    }
    proof {
        assert(rows(all@).take(all@.len() as int) =~= rows(all@));
        assert(pick =~= (|line: Seq<char>| listed_word(line)));
    }
    out
}

/// The entries of a frequency table, as text: each line that holds a space
/// gives one, the word before its first space and the count after it.
pub open spec fn frequency_table(content: Seq<char>) -> Seq<(Seq<char>, Seq<char>)> {
    lines_of(content).filter_map(|line: Seq<char>| split_once_at(line, ' '))
}

/// The texts of a list of entries.
pub open spec fn entry_texts(entries: Seq<(String, String)>) -> Seq<(Seq<char>, Seq<char>)> {
    entries.map_values(|e: (String, String)| (e.0@, e.1@))
}

/// The entries of the frequency table `content`: each word with the text of
/// its count.
pub fn frequency_entries(content: &str) -> (r: Vec<(String, String)>)
    ensures
        entry_texts(r@) == frequency_table(content@),
{
    let ghost pick = |line: Seq<char>| split_once_at(line, ' ');
    let all = lines(content);
    let mut out: Vec<(String, String)> = Vec::new();
    assert(entry_texts(out@) =~= rows(all@).take(0).filter_map(pick));
    for i in 0..all.len()
        invariant
            rows(all@) == lines_of(content@),
            forall|line: Seq<char>| #[trigger] pick(line) == split_once_at(line, ' '),
            entry_texts(out@) == rows(all@).take(i as int).filter_map(pick),
    {
        let ghost found = rows(all@).take(i as int).filter_map(pick);
        proof {
            assert(rows(all@)[i as int] == all@[i as int]@);
            rows(all@).lemma_filter_map_take_succ(pick, i as int);
        }
        match split_once(&all[i], ' ') {
            Some((word, count)) => {
                out.push((text_of(&word), text_of(&count)));
                assert(entry_texts(out@) =~= found + seq![(word@, count@)]);
            },
            None => {
                assert(found + Seq::<(Seq<char>, Seq<char>)>::empty() =~= found);
            },
        }
    }
    proof {
        assert(rows(all@).take(all@.len() as int) =~= rows(all@));
        assert(pick =~= (|line: Seq<char>| split_once_at(line, ' ')));
    }
    out
}

/// The words of a list of entries.
pub open spec fn entry_words(entries: Seq<(String, String)>) -> Seq<Seq<char>> {
    entries.map_values(|e: (String, String)| e.0@)
}

/// The dictionary that a frequency table gives: every word that it lists.
pub fn frequency_dictionary(entries: &Vec<(String, String)>) -> (r: WordSet)
    ensures
        r@ == entry_words(entries@).to_set(),
{
    let mut r = WordSet::new();
    assert(entry_words(entries@.take(0)).to_set() =~= r@);
    for i in 0..entries.len()
        invariant
            r@ == entry_words(entries@.take(i as int)).to_set(),
    {
        let ghost seen = entry_words(entries@.take(i as int));
        r.insert(entries[i].0.as_str());
        proof {
            assert(entry_words(entries@.take(i + 1)) =~= seen.push(entries@[i as int].0@));
            seen.lemma_push_to_set_commute(entries@[i as int].0@);
        }
    }
    assert(entries@.take(entries@.len() as int) =~= entries@);
    r
}

/// Whether an entry of a frequency table counts for the commonality of the
/// pool: its word takes five bytes and belongs to `words`.
pub open spec fn counts_for(entry: (String, String), words: Set<Seq<char>>) -> bool {
    vstd::utf8::encode_utf8(entry.0@).len() == 5 && words.contains(entry.0@)
}

/// The entries whose word takes five bytes and belongs to `words`, in their
/// order.
pub fn commonality_entries(entries: &Vec<(String, String)>, words: &WordSet) -> (r: Vec<
    (String, String),
>)
    ensures
        r@ == entries@.filter(|e: (String, String)| counts_for(e, words@)),
{
    let ghost keep = |e: (String, String)| counts_for(e, words@);
    let mut out: Vec<(String, String)> = Vec::new();
    assert(entries@.take(0).filter(keep) =~= out@);
    for i in 0..entries.len()
        invariant
            forall|e: (String, String)| #[trigger] keep(e) == counts_for(e, words@),
            out@ == entries@.take(i as int).filter(keep),
    {
        let word = entries[i].0.as_str();
        proof {
            let seen = entries@.take(i as int);
            assert(entries@.take(i + 1) =~= seen.push(entries@[i as int]));
            seen.lemma_filter_push(entries@[i as int], keep);
        }
        if word.as_bytes().len() == 5 && words.contains(word) {
            let entry = (entries[i].0.clone(), entries[i].1.clone());
            assert(entry == entries@[i as int]);
            out.push(entry);
        }
    }
    proof {
        assert(entries@.take(entries@.len() as int) =~= entries@);
        assert(keep =~= (|e: (String, String)| counts_for(e, words@)));
    }
    out
}

/// The words of `all` that do not occur in `used`, in their order.
pub fn available_words(all: &Vec<String>, used: &Vec<String>) -> (r: Vec<String>)
    ensures
        r@ == all@.filter(|w: String| !spellings(used@).contains(w@)),
{
    let ghost keep = |w: String| !spellings(used@).contains(w@);
    let taken = WordSet::from_words(used);
    let mut out: Vec<String> = Vec::new();
    assert(all@.take(0).filter(keep) =~= out@);
    for i in 0..all.len()
        invariant
            taken@ == spellings(used@).to_set(),
            forall|w: String| #[trigger] keep(w) == !spellings(used@).contains(w@),
            out@ == all@.take(i as int).filter(keep),
    {
        proof {
            let seen = all@.take(i as int);
            assert(all@.take(i + 1) =~= seen.push(all@[i as int]));
            seen.lemma_filter_push(all@[i as int], keep);
        }
        if !taken.contains(all[i].as_str()) {
            out.push(all[i].clone());
        }
    }
    proof {
        assert(all@.take(all@.len() as int) =~= all@);
        assert(keep =~= (|w: String| !spellings(used@).contains(w@)));
    }
    out
}

/// The most bytes that a page may take to be read: 256 MiB.
///
/// The reader keeps text in buffers whose lengths are 32-bit numbers and
/// whose capacities grow by doubling, and a character of one byte may become
/// one of three bytes while a page is read. The bound keeps three times a
/// page under half of what 32 bits hold.
pub const MAX_PAGE_BYTES: usize = 268_435_456;

/// Whether `text` takes no more than [`MAX_PAGE_BYTES`] bytes in UTF-8.
pub open spec fn fits_a_page(text: Seq<char>) -> bool {
    vstd::utf8::encode_utf8(text).len() <= MAX_PAGE_BYTES
}

/// The texts of the items of a list in a page.
///
/// `container`, `list` and `item` are CSS selectors. The result is nothing
/// where one of them is no selector, or where the page has no element for
/// `container`, or where the first such element holds no element for `list`.
/// The first element for `container` is the first among all elements of the
/// page in the order in which the reader put them into its tree, which for a
/// well-formed page is the order of the page. The first element for `list` is
/// the first among the descendants of that container, in the order of the
/// page. The result gives, for each element for `item` among the descendants
/// of that list, in the order of the page, the first piece of text among the
/// descendants of the item, if there is any.
pub uninterp spec fn item_texts(
    html: Seq<char>,
    container: Seq<char>,
    list: Seq<char>,
    item: Seq<char>,
) -> Option<Seq<Option<Seq<char>>>>;

/// The texts that a list of optional strings holds.
pub open spec fn optional_texts(items: Seq<Option<String>>) -> Seq<Option<Seq<char>>> {
    items.map_values(
        |t: Option<String>|
            match t {
                Some(s) => Some(s@),
                None => None,
            },
    )
}

/// Reads a page with the `scraper` crate: `Html::parse_document` builds the
/// document, `Selector::parse` the three selectors; `Html::select` and
/// `ElementRef::select` walk to the first `container`, to the first `list`
/// inside it and through the `item`s of that list; `ElementRef::text` gives
/// the first piece of text of each item. The contract claims that the result
/// depends on the four texts alone.
///
/// The page must keep to the bound on its size: the `tendril` buffers under
/// `Html::parse_document` refuse a text of more than `u32::MAX` bytes, and a
/// buffer that grows past half of that. The selectors must be the three of
/// this module, each of which names one element by its tag and class: the
/// matching of `selectors` calls itself once for every part of a selector that
/// a combinator joins to the next, so a long selector can use up the stack.
#[verifier::external_body]
fn read_item_texts(html: &str, container: &str, list: &str, item: &str) -> (r: Option<
    Vec<Option<String>>,
>)
    requires
        fits_a_page(html@),
        container@ == article_selector(),
        list@ == list_selector(),
        item@ == item_selector(),
    ensures
        match r {
            Some(items) => item_texts(html@, container@, list@, item@) == Some(
                optional_texts(items@),
            ),
            None => item_texts(html@, container@, list@, item@) is None,
        },
{
    let document = scraper::Html::parse_document(html);
    let container = scraper::Selector::parse(container).ok()?;
    let list = scraper::Selector::parse(list).ok()?;
    let item = scraper::Selector::parse(item).ok()?;
    let outer = document.select(&container).next()?;
    let inner = outer.select(&list).next()?;
    Some(inner.select(&item).map(|li| li.text().next().map(|t| t.to_string())).collect())
}

/// The past answer that the text of a list item stands for: the text without
/// the white space around it, in lower case, if that is a word of the game.
pub open spec fn past_answer(text: Option<Seq<char>>) -> Option<Seq<char>> {
    match text {
        Some(t) => if is_word(lowered(trimmed(t))) {
            Some(lowered(trimmed(t)))
        } else {
            None
        },
        None => None,
    }
}

/// The past answers among the texts of a list: the words that the items
/// stand for, each once, in the order of their first occurrence.
pub open spec fn past_answers_of(items: Seq<Option<Seq<char>>>) -> Seq<Seq<char>> {
    distinct(items.filter_map(|t: Option<Seq<char>>| past_answer(t)))
}

/// The past answers among the texts of the items of a list.
pub fn past_answers(items: &Vec<Option<String>>) -> (r: Vec<String>)
    ensures
        spellings(r@) == past_answers_of(optional_texts(items@)),
{
    let ghost pick = |t: Option<Seq<char>>| past_answer(t);
    let ghost texts = optional_texts(items@);
    let mut seen = WordSet::new();
    let mut out: Vec<String> = Vec::new();
    assert(spellings(out@) =~= distinct(texts.take(0).filter_map(pick)));
    assert(spellings(out@).to_set() =~= seen@);
    for i in 0..items.len()
        invariant
            texts == optional_texts(items@),
            forall|t: Option<Seq<char>>| #[trigger] pick(t) == past_answer(t),
            spellings(out@) == distinct(texts.take(i as int).filter_map(pick)),
            seen@ == spellings(out@).to_set(),
    {
        let ghost found = texts.take(i as int).filter_map(pick);
        proof {
            texts.lemma_filter_map_take_succ(pick, i as int);
            assert(found + Seq::<Seq<char>>::empty() =~= found);
        }
        match &items[i] {
            Some(text) => {
                let word = to_lowercase(&trim(&crate::text::chars_of(text.as_str())));
                let shown = text_of(&word);
                if is_valid_guess(shown.as_str()) {
                    assert(found + seq![word@] =~= found.push(word@));
                    push_new(&mut out, &mut seen, shown, Ghost(found));
                }
            },
            None => {},
        }
    }
    proof {
        assert(texts.take(texts.len() as int) =~= texts);
        assert(pick =~= (|t: Option<Seq<char>>| past_answer(t)));
    }
    out
}

/// The selector of the element that holds the article of the page of past
/// answers.
pub open spec fn article_selector() -> Seq<char> {
    "div.article_body_content"@
}

/// The selector of the list of past answers inside the article.
pub open spec fn list_selector() -> Seq<char> {
    "ul.inline"@
}

/// The selector of one past answer inside the list.
pub open spec fn item_selector() -> Seq<char> {
    "li"@
}

/// The past answers that the page `html` lists, or nothing where the page
/// holds no such list. A page of more than [`MAX_PAGE_BYTES`] bytes is not
/// read: it gives nothing.
pub fn past_answers_from_html(html: &str) -> (r: Option<Vec<String>>)
    ensures
        !fits_a_page(html@) ==> r is None,
        fits_a_page(html@) ==> match item_texts(
            html@,
            article_selector(),
            list_selector(),
            item_selector(),
        ) {
            Some(items) => r is Some && spellings(r->0@) == past_answers_of(items),
            None => r is None,
        },
{
    if html.as_bytes().len() > MAX_PAGE_BYTES {
        return None;
    }
    match read_item_texts(html, "div.article_body_content", "ul.inline", "li") {
        Some(items) => Some(past_answers(&items)),
        None => None,
    }
}

} // verus!
