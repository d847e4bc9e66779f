//! The profanity filter's word list: the words for which a message is
//! deleted and its author warned, and those for which the author is kicked,
//! and the text format in which the list is stored.
use vstd::prelude::*;
use crate::text::{
    all_space, chars_of, is_space, join, join_strings, lemma_all_space_plain, lemma_chars_deep_view,
    lemma_concat_without, lemma_join_first, lemma_join_last, lemma_join_without, lemma_split_concat,
    lemma_split_first, lemma_split_join, lemma_split_last, lemma_split_len,
    lemma_split_pieces_without, lemma_split_without_sep, lemma_trim_after_space, lemma_trim_clean,
    lemma_trim_idempotent, lemma_trim_keeps_first, lemma_trim_keeps_last, lemma_trim_nonblank,
    lemma_trim_padded, lemma_trim_without, lemma_trimmed_ends, pieces_of, same_chars, split,
    split_chars, trim, trim_chars, trim_each, trimmed_pieces_of,
};

verus! {

/// The words of the profanity filter.
pub struct WordList {
    /// Words for which the message is deleted and the user warned.
    pub warn_words: Vec<String>,
    /// Words for which the message is deleted and the user kicked.
    pub kick_words: Vec<String>,
}

/// The error of reading a word list whose two sections carry the same name.
#[derive(Clone, Copy, Debug, PartialEq, Eq, Structural)]
pub struct ParseError;

impl View for WordList {
    type V = (Seq<Seq<char>>, Seq<Seq<char>>);

    open spec fn view(&self) -> (Seq<Seq<char>>, Seq<Seq<char>>) {
        (self.warn_words.deep_view(), self.kick_words.deep_view())
    }
}

/// The name of the section of warn words.
pub open spec fn warn_key() -> Seq<char> {
    seq!['w', 'a', 'r', 'n', '_', 'w', 'o', 'r', 'd', 's']
}

/// The name of the section of kick words.
pub open spec fn kick_key() -> Seq<char> {
    seq!['k', 'i', 'c', 'k', '_', 'w', 'o', 'r', 'd', 's']
}

/// The stored text of a word list:
/// `warn_words: <warn words, one per line>;\nkick_words: <kick words, one per line>`.
pub open spec fn word_list_text(warn: Seq<Seq<char>>, kick: Seq<Seq<char>>) -> Seq<char> {
    warn_key() + seq![':', ' '] + join(warn, seq!['\n']) + seq![';', '\n'] + kick_key() + seq![
        ':',
        ' ',
    ] + join(kick, seq!['\n'])
}

/// The value of a `key: value` section split at its colons: the trimmed text
/// between the first and the second colon, or nothing.
pub open spec fn section_value(pieces: Seq<Seq<char>>) -> Seq<char> {
    if pieces.len() > 1 {
        trim(pieces[1])
    } else {
        Seq::<char>::empty()
    }
}

/// The words of a section value: its lines, each trimmed.
pub open spec fn words_of(value: Seq<char>) -> Seq<Seq<char>> {
    trim_each(split(value, '\n'))
}

/// The value of the section named `name`, looked for first in the first
/// section and then in the second; nothing where neither carries that name.
pub open spec fn named_value(
    name: Seq<char>,
    first: Seq<Seq<char>>,
    second: Seq<Seq<char>>,
) -> Seq<char> {
    if trim(first[0]) == name {
        section_value(first)
    } else if trim(second[0]) == name {
        section_value(second)
    } else {
        Seq::<char>::empty()
    }
}

/// The word list that `content` holds, as `WordList::from_str` reads it.
/// Blank content is the empty list. Otherwise only the first two sections
/// (separated by `;`) count; each is `key: value`; two sections with the
/// same key are an error; a section that is missing gives no words.
pub open spec fn parse_word_list(content: Seq<char>) -> Result<
    (Seq<Seq<char>>, Seq<Seq<char>>),
    ParseError,
> {
    if trim(content).len() == 0 {
        Ok((Seq::empty(), Seq::empty()))
    } else {
        let sections = split(content, ';');
        let second_section = if sections.len() > 1 {
            sections[1]
        } else {
            Seq::<char>::empty()
        };
        let first = split(sections[0], ':');
        let second = split(second_section, ':');
        if trim(first[0]) == trim(second[0]) {
            Err(ParseError)
        } else {
            Ok(
                (
                    words_of(named_value(warn_key(), first, second)),
                    words_of(named_value(kick_key(), first, second)),
                ),
            )
        }
    }
}

/// The words a text area holds: its lines, as typed.
pub open spec fn area_words(text: Seq<char>) -> Seq<Seq<char>> {
    split(text, '\n')
}

/// The characters of `warn_words`.
fn warn_key_chars() -> (v: Vec<char>)
    ensures
        v@ == warn_key(),
{
    let v = chars_of("warn_words");
    proof {
        reveal_strlit("warn_words");
        assert(v@ =~= warn_key());
    }
    v
}

/// The characters of `kick_words`.
fn kick_key_chars() -> (v: Vec<char>)
    ensures
        v@ == kick_key(),
{
    let v = chars_of("kick_words");
    proof {
        reveal_strlit("kick_words");
        assert(v@ =~= kick_key());
    }
    v
}

/// The value of a section split at its colons.
fn section_value_chars(pieces: &Vec<Vec<char>>) -> (v: Vec<char>)
    ensures
        v@ == section_value(pieces.deep_view()),
{
    if pieces.len() > 1 {
        proof {
            lemma_chars_deep_view(&pieces@[1]);
        }
        trim_chars(&pieces[1])
    } else {
        Vec::new()
    }
}

impl WordList {
    /// The word list typed into the two text areas of the configuration
    /// view: one word per line.
    pub fn from_text_areas(warn_text: &str, kick_text: &str) -> (list: WordList)
        ensures
            list@ == (area_words(warn_text@), area_words(kick_text@)),
    {
        WordList {
            warn_words: pieces_of(&chars_of(warn_text), '\n'),
            kick_words: pieces_of(&chars_of(kick_text), '\n'),
        }
    }

    /// The stored text of the list (see `word_list_text`).
    pub fn to_string(&self) -> (s: String)
        ensures
            s@ == word_list_text(self@.0, self@.1),
    {
        let mut s = String::from_str("warn_words: ");
        s.append(join_strings(&self.warn_words, "\n").as_str());
        s.append(";\nkick_words: ");
        s.append(join_strings(&self.kick_words, "\n").as_str());
        proof {
            reveal_strlit("warn_words: ");
            reveal_strlit("\n");
            reveal_strlit(";\nkick_words: ");
            assert("warn_words: "@ =~= warn_key() + seq![':', ' ']);
            assert("\n"@ =~= seq!['\n']);
            assert(";\nkick_words: "@ =~= seq![';', '\n'] + kick_key() + seq![':', ' ']);
            assert(s@ =~= word_list_text(self@.0, self@.1));
        }
        s
    }

    /// Reads a word list from its stored text (see `parse_word_list`).
    pub fn from_str(content: &str) -> (r: Result<WordList, ParseError>)
        ensures
            match r {
                Ok(list) => parse_word_list(content@) == Ok::<
                    (Seq<Seq<char>>, Seq<Seq<char>>),
                    ParseError,
                >(list@),
                Err(e) => parse_word_list(content@) == Err::<
                    (Seq<Seq<char>>, Seq<Seq<char>>),
                    ParseError,
                >(e),
            },
    {
        let chars = chars_of(content);
        if trim_chars(&chars).len() == 0 {
            let list = WordList { warn_words: Vec::new(), kick_words: Vec::new() };
            assert(list@.0 =~= Seq::<Seq<char>>::empty());
            assert(list@.1 =~= Seq::<Seq<char>>::empty());
            return Ok(list);
        }
        let sections = split_chars(&chars, ';');
        proof {
            lemma_split_len(chars@, ';');
            lemma_chars_deep_view(&sections@[0]);
        }
        let no_section: Vec<char> = Vec::new();
        let second_section: &Vec<char> = if sections.len() > 1 {
            proof {
                lemma_chars_deep_view(&sections@[1]);
            }
            &sections[1]
        } else {
            &no_section
        };
        let first = split_chars(&sections[0], ':');
        let second = split_chars(second_section, ':');
        proof {
            lemma_split_len(sections@[0]@, ':');
            lemma_split_len(second_section@, ':');
            lemma_chars_deep_view(&first@[0]);
            lemma_chars_deep_view(&second@[0]);
        }
        let first_key = trim_chars(&first[0]);
        let second_key = trim_chars(&second[0]);
        if same_chars(&first_key, &second_key) {
            return Err(ParseError);
        }
        let warn_name = warn_key_chars();
        let kick_name = kick_key_chars();
        let warn = if same_chars(&first_key, &warn_name) {
            section_value_chars(&first)
        } else if same_chars(&second_key, &warn_name) {
            section_value_chars(&second)
        } else {
            Vec::new()
        };
        let kick = if same_chars(&first_key, &kick_name) {
            section_value_chars(&first)
        } else if same_chars(&second_key, &kick_name) {
            section_value_chars(&second)
        } else {
            Vec::new()
        };
        Ok(
            WordList {
                warn_words: trimmed_pieces_of(&warn, '\n'),
                kick_words: trimmed_pieces_of(&kick, '\n'),
            },
        )
    }
}

impl ParseError {
    /// The message that explains the error.
    pub fn to_string(&self) -> (s: String)
        ensures
            s@ == "Failed to parse word list content"@,
    {
        String::from_str("Failed to parse word list content")
    }
}


/// Words that come back unchanged from the stored text: at least one word;
/// no word has white space at either end or holds a line break, `;` or `:`;
/// and where there are two words or more, the first and the last are not
/// empty.
pub open spec fn storable_words(words: Seq<Seq<char>>) -> bool {
    &&& words.len() >= 1
    &&& forall|i: int|
        0 <= i < words.len() ==> {
            &&& trim(#[trigger] words[i]) == words[i]
            &&& !words[i].contains('\n')
            &&& !words[i].contains(';')
            &&& !words[i].contains(':')
        }
    &&& words.len() >= 2 ==> words[0].len() > 0 && words.last().len() > 0
}

/// Neither section name holds a separator or white space at its ends, and
/// the two names differ.
proof fn lemma_section_names()
    ensures
        !warn_key().contains(';'),
        !warn_key().contains(':'),
        !kick_key().contains(';'),
        !kick_key().contains(':'),
        trim(warn_key()) == warn_key(),
        trim(kick_key()) == kick_key(),
        warn_key() != kick_key(),
        !is_space(warn_key()[0]),
{
    let w = warn_key();
    let k = kick_key();
    assert forall|i: int| 0 <= i < w.len() implies w[i] != ';' && w[i] != ':' && k[i] != ';'
        && k[i] != ':' by {
        if i == 0 {
        } else if i == 1 {
        } else if i == 2 {
        } else if i == 3 {
        } else if i == 4 {
        } else if i == 5 {
        } else if i == 6 {
        } else if i == 7 {
        } else if i == 8 {
        } else {
        }
    }
    assert(w[0] == 'w' && w.last() == 's');
    assert(k[0] == 'k' && k.last() == 's');
    lemma_trim_clean(w);
    lemma_trim_clean(k);
}

/// The text of storable words holds no section separator, trims to itself,
/// and reads back as the same words.
proof fn lemma_joined_words(words: Seq<Seq<char>>)
    requires
        storable_words(words),
    ensures
        !join(words, seq!['\n']).contains(';'),
        !join(words, seq!['\n']).contains(':'),
        trim(join(words, seq!['\n'])) == join(words, seq!['\n']),
        words_of(join(words, seq!['\n'])) == words,
{
    let j = join(words, seq!['\n']);
    lemma_join_without(words, seq!['\n'], ';');
    lemma_join_without(words, seq!['\n'], ':');
    if words.len() == 1 {
    } else {
        lemma_join_first(words, seq!['\n']);
        lemma_join_last(words, seq!['\n']);
        lemma_trimmed_ends(words[0]);
        lemma_trimmed_ends(words.last());
        assert(words.last() == words[words.len() - 1]);
        lemma_trim_clean(j);
    }
    lemma_split_join(words, '\n');
    assert(trim_each(words) =~= words);
}

/// A `key: value` section whose key and value hold no `:` splits into the
/// two.
proof fn lemma_section_split(key: Seq<char>, value: Seq<char>)
    requires
        !key.contains(':'),
        !value.contains(':'),
    ensures
        split(key + seq![':'] + value, ':') == seq![key, value],
{
    lemma_split_concat(key, value, ':');
    lemma_split_without_sep(key, ':');
    lemma_split_without_sep(value, ':');
    assert(seq![key] + seq![value] =~= seq![key, value]);
}

/// Reading back the stored text of a word list gives the same word list,
/// whenever both lists are storable (`storable_words`).
pub proof fn lemma_word_list_round_trip(warn: Seq<Seq<char>>, kick: Seq<Seq<char>>)
    requires
        storable_words(warn),
        storable_words(kick),
    ensures
        parse_word_list(word_list_text(warn, kick)) == Ok::<
            (Seq<Seq<char>>, Seq<Seq<char>>),
            ParseError,
        >((warn, kick)),
{
    let w = join(warn, seq!['\n']);
    let k = join(kick, seq!['\n']);
    lemma_joined_words(warn);
    lemma_joined_words(kick);
    lemma_section_names();
    let value1 = seq![' '] + w;
    let value2 = seq![' '] + k;
    let key2 = seq!['\n'] + kick_key();
    let part1 = warn_key() + seq![':'] + value1;
    let part2 = key2 + seq![':'] + value2;
    let content = word_list_text(warn, kick);
    assert(content =~= part1 + seq![';'] + part2);
    // the section separator occurs once
    let space = seq![' '];
    let colon = seq![':'];
    let newline = seq!['\n'];
    assert(!space.contains(';') && !space.contains(':'));
    assert(!colon.contains(';'));
    assert(!newline.contains(';') && !newline.contains(':'));
    lemma_concat_without(space, w, ';');
    lemma_concat_without(space, w, ':');
    lemma_concat_without(space, k, ';');
    lemma_concat_without(space, k, ':');
    lemma_concat_without(newline, kick_key(), ';');
    lemma_concat_without(newline, kick_key(), ':');
    lemma_concat_without(warn_key(), colon, ';');
    lemma_concat_without(warn_key() + colon, value1, ';');
    lemma_concat_without(key2, colon, ';');
    lemma_concat_without(key2 + colon, value2, ';');
    lemma_split_concat(part1, part2, ';');
    lemma_split_without_sep(part1, ';');
    lemma_split_without_sep(part2, ';');
    let sections = split(content, ';');
    assert(sections =~= seq![part1, part2]);
    // each section is `key: value`
    lemma_section_split(warn_key(), value1);
    lemma_section_split(key2, value2);
    let first = split(part1, ':');
    let second = split(part2, ':');
    lemma_trim_after_space('\n', kick_key());
    lemma_trim_after_space(' ', w);
    lemma_trim_after_space(' ', k);
    assert(trim(first[0]) == warn_key());
    assert(trim(second[0]) == kick_key());
    assert(named_value(warn_key(), first, second) == w);
    assert(named_value(kick_key(), first, second) == k);
    // the content is not blank
    assert(content[0] == 'w');
    lemma_trim_keeps_first(content);
}


/// The words of a section value that trims to itself and holds no `;` or
/// `:` are storable.
proof fn lemma_words_storable(value: Seq<char>)
    requires
        trim(value) == value,
        !value.contains(';'),
        !value.contains(':'),
    ensures
        storable_words(words_of(value)),
{
    let pieces = split(value, '\n');
    let words = words_of(value);
    lemma_split_len(value, '\n');
    lemma_split_pieces_without(value, '\n', '\n');
    lemma_split_pieces_without(value, '\n', ';');
    lemma_split_pieces_without(value, '\n', ':');
    assert forall|i: int| 0 <= i < words.len() implies {
        &&& trim(#[trigger] words[i]) == words[i]
        &&& !words[i].contains('\n')
        &&& !words[i].contains(';')
        &&& !words[i].contains(':')
    } by {
        assert(words[i] == trim(pieces[i]));
        lemma_trim_idempotent(pieces[i]);
        lemma_trim_without(pieces[i], '\n');
        lemma_trim_without(pieces[i], ';');
        lemma_trim_without(pieces[i], ':');
    }
    if words.len() >= 2 {
        if !value.contains('\n') {
            lemma_split_without_sep(value, '\n');
            assert(false);
        }
        assert(value.len() > 0);
        lemma_trimmed_ends(value);
        assert(is_space('\n'));
        lemma_split_first(value, '\n');
        lemma_trim_keeps_first(pieces[0]);
        lemma_split_last(value, '\n');
        lemma_trim_keeps_last(pieces.last());
        assert(words.last() == trim(pieces[pieces.len() - 1]));
    }
}

/// The value of a section whose pieces hold no `;` or `:` trims to itself
/// and holds neither.
proof fn lemma_section_value_plain(pieces: Seq<Seq<char>>)
    requires
        forall|i: int|
            0 <= i < pieces.len() ==> !(#[trigger] pieces[i]).contains(';') && !pieces[i].contains(
                ':',
            ),
    ensures
        trim(section_value(pieces)) == section_value(pieces),
        !section_value(pieces).contains(';'),
        !section_value(pieces).contains(':'),
{
    if pieces.len() > 1 {
        lemma_trim_idempotent(pieces[1]);
        lemma_trim_without(pieces[1], ';');
        lemma_trim_without(pieces[1], ':');
    } else {
        lemma_trim_clean(Seq::<char>::empty());
    }
}

/// The pieces of a section that holds no `;`, split at `:`, hold no `;` or
/// `:`.
proof fn lemma_section_pieces_plain(section: Seq<char>)
    requires
        !section.contains(';'),
    ensures
        split(section, ':').len() >= 1,
        forall|i: int|
            0 <= i < split(section, ':').len() ==> !(#[trigger] split(section, ':')[i]).contains(';')
                && !split(section, ':')[i].contains(':'),
{
    lemma_split_len(section, ':');
    lemma_split_pieces_without(section, ':', ':');
    lemma_split_pieces_without(section, ':', ';');
}

/// A word list read from text that is not blank is storable, so printing it
/// and reading the printed text again gives the same word list.
pub proof fn lemma_parsed_word_list_reprints(content: Seq<char>)
    requires
        trim(content).len() > 0,
        parse_word_list(content) is Ok,
    ensures
        storable_words(parse_word_list(content)->Ok_0.0),
        storable_words(parse_word_list(content)->Ok_0.1),
        parse_word_list(
            word_list_text(parse_word_list(content)->Ok_0.0, parse_word_list(content)->Ok_0.1),
        ) == parse_word_list(content),
{
    let sections = split(content, ';');
    lemma_split_len(content, ';');
    lemma_split_pieces_without(content, ';', ';');
    let second_section = if sections.len() > 1 {
        sections[1]
    } else {
        Seq::<char>::empty()
    };
    assert(!sections[0].contains(';'));
    assert(!second_section.contains(';'));
    lemma_section_pieces_plain(sections[0]);
    lemma_section_pieces_plain(second_section);
    let first = split(sections[0], ':');
    let second = split(second_section, ':');
    lemma_section_value_plain(first);
    lemma_section_value_plain(second);
    lemma_trim_clean(Seq::<char>::empty());
    lemma_words_storable(named_value(warn_key(), first, second));
    lemma_words_storable(named_value(kick_key(), first, second));
    let (warn, kick) = parse_word_list(content)->Ok_0;
    lemma_word_list_round_trip(warn, kick);
}


/// A word list read from text that is not blank, shown one word per line in
/// the two text areas of the configuration view and saved unedited, is
/// saved as text that reads back as the same word list.
pub proof fn lemma_view_and_save_keeps_list(content: Seq<char>)
    requires
        trim(content).len() > 0,
        parse_word_list(content) is Ok,
    ensures
        area_words(join(parse_word_list(content)->Ok_0.0, seq!['\n']))
            == parse_word_list(content)->Ok_0.0,
        area_words(join(parse_word_list(content)->Ok_0.1, seq!['\n']))
            == parse_word_list(content)->Ok_0.1,
        parse_word_list(
            word_list_text(
                area_words(join(parse_word_list(content)->Ok_0.0, seq!['\n'])),
                area_words(join(parse_word_list(content)->Ok_0.1, seq!['\n'])),
            ),
        ) == parse_word_list(content),
{
    lemma_parsed_word_list_reprints(content);
    let (warn, kick) = parse_word_list(content)->Ok_0;
    lemma_split_join(warn, '\n');
    lemma_split_join(kick, '\n');
}


/// The pieces of `key:value` split at its colons: the key, then the pieces
/// of the value.
proof fn lemma_key_value_pieces(key: Seq<char>, value: Seq<char>)
    requires
        !key.contains(':'),
    ensures
        split(key + seq![':'] + value, ':') == seq![key] + split(value, ':'),
{
    lemma_split_concat(key, value, ':');
    lemma_split_without_sep(key, ':');
}

/// Section names are compared and matched after trimming both ends: white
/// space before or after the name of either section (before its colon)
/// changes neither the word lists read nor whether reading fails.
pub proof fn lemma_section_name_white_space(
    key1: Seq<char>,
    value1: Seq<char>,
    key2: Seq<char>,
    value2: Seq<char>,
    front1: Seq<char>,
    back1: Seq<char>,
    front2: Seq<char>,
    back2: Seq<char>,
)
    requires
        !key1.contains(':'),
        !key1.contains(';'),
        !key2.contains(':'),
        !key2.contains(';'),
        !value1.contains(';'),
        !value2.contains(';'),
        all_space(front1),
        all_space(back1),
        all_space(front2),
        all_space(back2),
    ensures
        parse_word_list(
            front1 + key1 + back1 + seq![':'] + value1 + seq![';'] + front2 + key2 + back2 + seq![
                ':',
            ] + value2,
        ) == parse_word_list(key1 + seq![':'] + value1 + seq![';'] + key2 + seq![':'] + value2),
{
    lemma_all_space_plain(front1);
    lemma_all_space_plain(back1);
    lemma_all_space_plain(front2);
    lemma_all_space_plain(back2);
    let padded1 = front1 + key1 + back1;
    let padded2 = front2 + key2 + back2;
    lemma_concat_without(front1, key1, ':');
    lemma_concat_without(front1 + key1, back1, ':');
    lemma_concat_without(front1, key1, ';');
    lemma_concat_without(front1 + key1, back1, ';');
    lemma_concat_without(front2, key2, ':');
    lemma_concat_without(front2 + key2, back2, ':');
    lemma_concat_without(front2, key2, ';');
    lemma_concat_without(front2 + key2, back2, ';');
    lemma_trim_padded(front1, key1, back1);
    lemma_trim_padded(front2, key2, back2);
    let a1 = padded1 + seq![':'] + value1;
    let a2 = padded2 + seq![':'] + value2;
    let b1 = key1 + seq![':'] + value1;
    let b2 = key2 + seq![':'] + value2;
    let a = front1 + key1 + back1 + seq![':'] + value1 + seq![';'] + front2 + key2 + back2 + seq![
        ':',
    ] + value2;
    let b = key1 + seq![':'] + value1 + seq![';'] + key2 + seq![':'] + value2;
    assert(a =~= a1 + seq![';'] + a2);
    assert(b =~= b1 + seq![';'] + b2);
    // one `;` in each: two sections
    lemma_concat_without(padded1, seq![':'], ';');
    lemma_concat_without(padded1 + seq![':'], value1, ';');
    lemma_concat_without(padded2, seq![':'], ';');
    lemma_concat_without(padded2 + seq![':'], value2, ';');
    lemma_concat_without(key1, seq![':'], ';');
    lemma_concat_without(key1 + seq![':'], value1, ';');
    lemma_concat_without(key2, seq![':'], ';');
    lemma_concat_without(key2 + seq![':'], value2, ';');
    lemma_split_concat(a1, a2, ';');
    lemma_split_without_sep(a1, ';');
    lemma_split_without_sep(a2, ';');
    lemma_split_concat(b1, b2, ';');
    lemma_split_without_sep(b1, ';');
    lemma_split_without_sep(b2, ';');
    assert(split(a, ';') =~= seq![a1, a2]);
    assert(split(b, ';') =~= seq![b1, b2]);
    // each section: the key, then the pieces of the value
    lemma_key_value_pieces(padded1, value1);
    lemma_key_value_pieces(padded2, value2);
    lemma_key_value_pieces(key1, value1);
    lemma_key_value_pieces(key2, value2);
    let fa = split(a1, ':');
    let sa = split(a2, ':');
    let fb = split(b1, ':');
    let sb = split(b2, ':');
    assert(trim(fa[0]) == trim(fb[0]));
    assert(trim(sa[0]) == trim(sb[0]));
    assert(section_value(fa) == section_value(fb));
    assert(section_value(sa) == section_value(sb));
    assert(named_value(warn_key(), fa, sa) == named_value(warn_key(), fb, sb));
    assert(named_value(kick_key(), fa, sa) == named_value(kick_key(), fb, sb));
    // neither text is blank: each holds a colon
    assert(a[padded1.len() as int] == ':');
    assert(b[key1.len() as int] == ':');
    lemma_trim_nonblank(a, padded1.len() as int);
    lemma_trim_nonblank(b, key1.len() as int);
}

} // verus!
