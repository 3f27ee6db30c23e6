//! Shell command lines for resuming an agent.
use crate::text::texts;
use vstd::prelude::*;

verus! {

/// The characters that a shell reads as themselves outside quotes.
pub open spec fn is_plain(ch: char) -> bool {
    ||| 'a' <= ch <= 'z'
    ||| 'A' <= ch <= 'Z'
    ||| '0' <= ch <= '9'
    ||| ch == '_'
    ||| ch == '-'
    ||| ch == '.'
    ||| ch == '/'
    ||| ch == ':'
    ||| ch == '@'
    ||| ch == '%'
    ||| ch == '+'
    ||| ch == '='
}

/// Whether every character of `value` is plain.
pub open spec fn all_plain(value: Seq<char>) -> bool {
    forall|i: int| 0 <= i < value.len() ==> is_plain(#[trigger] value[i])
}

/// `value` as it stands between single quotes: each quote closes the quoted
/// text, stands there behind a backslash, and opens it again.
pub open spec fn escaped(value: Seq<char>) -> Seq<char>
    decreases value.len(),
{
    if value.len() == 0 {
        Seq::empty()
    } else {
        let rest = escaped(value.drop_last());
        if value.last() == '\'' {
            rest + seq!['\'', '\\', '\'', '\'']
        } else {
            rest.push(value.last())
        }
    }
}

/// One argument as a word of a shell command.
pub open spec fn quoted(value: Seq<char>) -> Seq<char> {
    if value.len() > 0 && all_plain(value) {
        value
    } else {
        seq!['\''] + escaped(value) + seq!['\'']
    }
}

/// The arguments as one command line: quoted, with one blank between two.
pub open spec fn command_line(argv: Seq<Seq<char>>) -> Seq<char>
    decreases argv.len(),
{
    if argv.len() == 0 {
        Seq::empty()
    } else if argv.len() == 1 {
        quoted(argv[0])
    } else {
        command_line(argv.drop_last()).push(' ') + quoted(argv.last())
    }
}

fn plain(ch: char) -> (result: bool)
    ensures
        result == is_plain(ch),
{
    ('a' <= ch && ch <= 'z') || ('A' <= ch && ch <= 'Z') || ('0' <= ch && ch <= '9') || ch == '_'
        || ch == '-' || ch == '.' || ch == '/' || ch == ':' || ch == '@' || ch == '%' || ch == '+'
        || ch == '='
}

/// Quotes `value` so that a shell reads it as one word with its characters.
pub fn shell_quote(value: &str) -> (word: String)
    ensures
        word@ == quoted(value@),
{
    let mut is_word: bool = !value.is_empty();
    let mut word = String::new();
    word.push('\'');
    for ch in iter: value.chars()
        invariant
            iter.seq() == value@,
            is_word == (value@.len() > 0 && all_plain(value@.take(iter.index()))),
            word@ == seq!['\''] + escaped(value@.take(iter.index())),
    {
        let ghost before = value@.take(iter.index());
        let ghost read = value@.take(iter.index() + 1);
        assert(read.drop_last() =~= before);
        let is_plain_ch: bool = plain(ch);
        proof {
            if all_plain(before) && is_plain_ch {
                assert forall|i: int| 0 <= i < read.len() implies is_plain(#[trigger] read[i]) by {
                    if i < before.len() {
                        assert(is_plain(before[i]));
                    }
                }
            }
            if all_plain(read) {
                assert forall|i: int| 0 <= i < before.len() implies is_plain(
                    #[trigger] before[i],
                ) by {
                    assert(is_plain(read[i]));
                }
                assert(is_plain(read[before.len() as int]));
            }
        }
        if !is_plain_ch {
            is_word = false;
        }
        if ch == '\'' {
            word.push('\'');
            word.push('\\');
            word.push('\'');
        }
        word.push(ch);
        assert(word@ =~= seq!['\''] + escaped(read));
    }
    assert(value@.take(value@.len() as int) =~= value@);
    if is_word {
        return value.to_owned();
    }
    word.push('\'');
    word
}

/// The command line that runs `argv`; there is none without a program name.
pub fn shell_command_from_argv(argv: &[String]) -> (command: Option<String>)
    ensures
        command is Some <==> argv@.len() > 0,
        command matches Some(line) ==> line@ == command_line(texts(argv@)),
        command matches Some(line) ==> {
            &&& shell_words(line@) matches Some(words)
            &&& words.len() == argv@.len()
            &&& forall|i: int| 0 <= i < argv@.len() ==> #[trigger] words[i] == argv@[i]@
        },
{
    if argv.len() == 0 {
        return None;
    }
    let mut line = shell_quote(argv[0].as_str());
    let mut i: usize = 1;
    assert(texts(argv@).take(1)[0] == argv@[0]@);
    while i < argv.len()
        invariant
            1 <= i <= argv@.len(),
            line@ == command_line(texts(argv@).take(i as int)),
        decreases argv@.len() - i,
    {
        let ghost read = texts(argv@).take(i + 1);
        assert(read.drop_last() =~= texts(argv@).take(i as int));
        line.push(' ');
        line.append(shell_quote(argv[i].as_str()).as_str());
        i += 1;
    }
    assert(texts(argv@).take(argv@.len() as int) =~= texts(argv@));
    proof {
        command_line_reads_back(texts(argv@));
    }
    Some(line)
}

/// The characters that a shell's reader takes as they are outside quotes: ASCII
/// letters and digits, and nine signs that have no meaning to it there.
pub open spec fn stands_for_itself(ch: char) -> bool {
    match ch {
        'a'..='z' | 'A'..='Z' | '0'..='9' => true,
        '_' | '-' | '.' | '/' | ':' | '@' | '%' | '+' | '=' => true,
        _ => false,
    }
}

/// How a shell takes the next character of a command line.
pub enum ReadMode {
    /// Outside quotes.
    Bare,
    /// Between single quotes.
    Quoted,
    /// Behind a backslash outside quotes.
    Escaped,
    /// Behind a character that does more than stand for itself.
    Active,
}

/// What a shell has read of a command line: the complete words, the word that
/// has begun, and how it takes the next character.
pub struct WordReader {
    pub words: Seq<Seq<char>>,
    pub current: Option<Seq<char>>,
    pub mode: ReadMode,
}

impl WordReader {
    /// Before the first character.
    pub open spec fn start() -> WordReader {
        WordReader { words: Seq::empty(), current: None, mode: ReadMode::Bare }
    }

    /// The characters of the word that has begun.
    pub open spec fn begun(self) -> Seq<char> {
        match self.current {
            Some(word) => word,
            None => Seq::empty(),
        }
    }

    /// The reader in mode `mode`, with `ch` added to its word.
    pub open spec fn with(self, ch: char, mode: ReadMode) -> WordReader {
        WordReader { current: Some(self.begun().push(ch)), mode, ..self }
    }

    /// The reader after one more character.
    pub open spec fn step(self, ch: char) -> WordReader {
        match self.mode {
            ReadMode::Bare => {
                if ch == ' ' || ch == '\t' {
                    match self.current {
                        Some(word) => WordReader {
                            words: self.words.push(word),
                            current: None,
                            ..self
                        },
                        None => self,
                    }
                } else if ch == '\'' {
                    WordReader { current: Some(self.begun()), mode: ReadMode::Quoted, ..self }
                } else if ch == '\\' {
                    WordReader { mode: ReadMode::Escaped, ..self }
                } else if stands_for_itself(ch) {
                    self.with(ch, ReadMode::Bare)
                } else {
                    WordReader { mode: ReadMode::Active, ..self }
                }
            },
            ReadMode::Quoted => {
                if ch == '\'' {
                    WordReader { mode: ReadMode::Bare, ..self }
                } else {
                    self.with(ch, ReadMode::Quoted)
                }
            },
            ReadMode::Escaped => {
                if ch == '\n' {
                    WordReader { mode: ReadMode::Bare, ..self }
                } else {
                    self.with(ch, ReadMode::Bare)
                }
            },
            ReadMode::Active => self,
        }
    }

    /// The reader after `text`.
    pub open spec fn after(self, text: Seq<char>) -> WordReader
        decreases text.len(),
    {
        if text.len() == 0 {
            self
        } else {
            self.after(text.drop_last()).step(text.last())
        }
    }
}

/// The words that a shell reads in `text` by splitting at blanks and removing
/// quotes, where nothing outside quotes does more than stand for itself.
pub open spec fn shell_words(text: Seq<char>) -> Option<Seq<Seq<char>>> {
    let end = WordReader::start().after(text);
    if end.mode is Bare {
        Some(
            match end.current {
                Some(word) => end.words.push(word),
                None => end.words,
            },
        )
    } else {
        None
    }
}

proof fn lemma_after_add(reader: WordReader, a: Seq<char>, b: Seq<char>)
    ensures
        reader.after(a + b) == reader.after(a).after(b),
    decreases b.len(),
{
    if b.len() == 0 {
        assert(a + b =~= a);
    } else {
        assert((a + b).drop_last() =~= a + b.drop_last());
        lemma_after_add(reader, a, b.drop_last());
    }
}

proof fn lemma_after_escaped(reader: WordReader, value: Seq<char>)
    requires
        reader.mode is Quoted,
        reader.current is Some,
    ensures
        reader.after(escaped(value)) == (WordReader {
            current: Some(reader.begun() + value),
            ..reader
        }),
    decreases value.len(),
{
    if value.len() == 0 {
        assert(reader.begun() + value =~= reader.begun());
    } else {
        let front = value.drop_last();
        lemma_after_escaped(reader, front);
        let middle = reader.after(escaped(front));
        assert(reader.begun() + value =~= (reader.begun() + front).push(value.last()));
        if value.last() == '\'' {
            let tail = seq!['\'', '\\', '\'', '\''];
            lemma_after_add(reader, escaped(front), tail);
            reveal_with_fuel(WordReader::after, 5);
            assert(tail.drop_last() =~= seq!['\'', '\\', '\'']);
            assert(tail.drop_last().drop_last() =~= seq!['\'', '\\']);
            assert(tail.drop_last().drop_last().drop_last() =~= seq!['\'']);
            assert(tail.drop_last().drop_last().drop_last().drop_last() =~= Seq::empty());
        } else {
            assert(escaped(value).drop_last() =~= escaped(front));
        }
    }
}

proof fn lemma_after_plain(reader: WordReader, value: Seq<char>)
    requires
        reader.mode is Bare,
        value.len() > 0,
        all_plain(value),
    ensures
        reader.after(value) == (WordReader {
            current: Some(reader.begun() + value),
            ..reader
        }),
    decreases value.len(),
{
    reveal_with_fuel(WordReader::after, 2);
    let front = value.drop_last();
    assert(is_plain(value.last()));
    assert(reader.begun() + value =~= (reader.begun() + front).push(value.last()));
    if front.len() == 0 {
        assert(reader.begun() + front =~= reader.begun());
    } else {
        assert forall|i: int| 0 <= i < front.len() implies is_plain(#[trigger] front[i]) by {
            assert(is_plain(value[i]));
        }
        lemma_after_plain(reader, front);
    }
}

proof fn lemma_after_quoted(reader: WordReader, value: Seq<char>)
    requires
        reader.mode is Bare,
        reader.current is None,
    ensures
        reader.after(quoted(value)) == (WordReader { current: Some(value), ..reader }),
{
    assert(reader.begun() + value =~= value);
    if value.len() > 0 && all_plain(value) {
        lemma_after_plain(reader, value);
    } else {
        reveal_with_fuel(WordReader::after, 2);
        let quote = seq!['\''];
        let opened = reader.after(quote);
        assert(quote.drop_last() =~= Seq::empty());
        lemma_after_add(reader, quote, escaped(value));
        lemma_after_add(reader, quote + escaped(value), quote);
        lemma_after_escaped(opened, value);
        assert(opened.begun() + value =~= value);
    }
}

proof fn lemma_after_command_line(argv: Seq<Seq<char>>)
    requires
        argv.len() > 0,
    ensures
        WordReader::start().after(command_line(argv)) == (WordReader {
            words: argv.drop_last(),
            current: Some(argv.last()),
            mode: ReadMode::Bare,
        }),
    decreases argv.len(),
{
    let start = WordReader::start();
    if argv.len() == 1 {
        lemma_after_quoted(start, argv[0]);
        assert(argv.drop_last() =~= start.words);
    } else {
        let front = argv.drop_last();
        lemma_after_command_line(front);
        let line = command_line(front);
        assert(line.push(' ').drop_last() =~= line);
        let blank = start.after(line.push(' '));
        assert(front.drop_last().push(front.last()) =~= front);
        lemma_after_add(start, line.push(' '), quoted(argv.last()));
        lemma_after_quoted(blank, argv.last());
    }
}

/// A shell reads the command line of `argv` as exactly the words of `argv`.
pub proof fn command_line_reads_back(argv: Seq<Seq<char>>)
    requires
        argv.len() > 0,
    ensures
        shell_words(command_line(argv)) == Some(argv),
{
    lemma_after_command_line(argv);
    assert(argv.drop_last().push(argv.last()) =~= argv);
}

proof fn lemma_escaped_len(value: Seq<char>)
    ensures
        escaped(value).len() >= value.len(),
    decreases value.len(),
{
    if value.len() > 0 {
        lemma_escaped_len(value.drop_last());
    }
}

/// A word stays as it is exactly where it is not empty and holds only ASCII
/// letters, digits and `_ - . / : @ % + =`.
pub proof fn only_safe_words_stay_bare(value: Seq<char>)
    ensures
        quoted(value) == value <==> {
            &&& value.len() > 0
            &&& forall|i: int|
                0 <= i < value.len() ==> {
                    let ch = #[trigger] value[i];
                    ||| 'a' <= ch <= 'z'
                    ||| 'A' <= ch <= 'Z'
                    ||| '0' <= ch <= '9'
                    ||| seq!['_', '-', '.', '/', ':', '@', '%', '+', '='].contains(ch)
                }
        },
{
    let signs = seq!['_', '-', '.', '/', ':', '@', '%', '+', '='];
    lemma_escaped_len(value);
    assert forall|ch: char| #[trigger] is_plain(ch) == ('a' <= ch <= 'z' || 'A' <= ch <= 'Z' || '0'
        <= ch <= '9' || signs.contains(ch)) by {
        assert(signs[0] == '_' && signs[1] == '-' && signs[2] == '.' && signs[3] == '/');
        assert(signs[4] == ':' && signs[5] == '@' && signs[6] == '%' && signs[7] == '+');
        assert(signs[8] == '=');
    }
    if quoted(value) == value {
        assert forall|i: int| 0 <= i < value.len() implies ({
            let ch = #[trigger] value[i];
            ||| 'a' <= ch <= 'z'
            ||| 'A' <= ch <= 'Z'
            ||| '0' <= ch <= '9'
            ||| signs.contains(ch)
        }) by {
            assert(is_plain(value[i]));
        }
    }
}

/// A word that does not stay as it is stands between single quotes. Between
/// them each character is kept but for the single quote, which is written as
/// `'\''`.
pub proof fn other_words_stand_in_quotes(value: Seq<char>)
    requires
        quoted(value) != value,
    ensures
        quoted(value) == seq!['\''] + escaped(value) + seq!['\''],
{
}

/// What stands between the quotes is made character by character: parts of a
/// value are written one after the other, a single quote as `'\''`, and any
/// other character as itself.
pub proof fn characters_are_escaped_one_by_one(a: Seq<char>, b: Seq<char>, ch: char)
    ensures
        escaped(a + b) == escaped(a) + escaped(b),
        escaped(seq!['\'']) == seq!['\'', '\\', '\'', '\''],
        ch != '\'' ==> escaped(seq![ch]) == seq![ch],
    decreases b.len(),
{
    reveal_with_fuel(escaped, 2);
    assert(seq!['\''].drop_last() =~= Seq::empty());
    assert(escaped(seq!['\'']) =~= seq!['\'', '\\', '\'', '\'']);
    assert(seq![ch].drop_last() =~= Seq::empty());
    assert(ch != '\'' ==> escaped(seq![ch]) =~= seq![ch]);
    if b.len() == 0 {
        assert(a + b =~= a);
        assert(escaped(a) + escaped(b) =~= escaped(a));
    } else {
        assert((a + b).drop_last() =~= a + b.drop_last());
        characters_are_escaped_one_by_one(a, b.drop_last(), ch);
        assert(escaped(a + b) =~= escaped(a) + escaped(b));
    }
}

/// A command line is made word by word: that of one word is the word, quoted
/// where it has to be, and that of more is theirs with a blank in between.
pub proof fn words_are_joined_by_blanks(a: Seq<Seq<char>>, b: Seq<Seq<char>>, word: Seq<char>)
    requires
        a.len() > 0,
        b.len() > 0,
    ensures
        command_line(seq![word]) == quoted(word),
        command_line(a + b) == command_line(a) + seq![' '] + command_line(b),
    decreases b.len(),
{
    if b.len() == 1 {
        assert((a + b).drop_last() =~= a);
        assert(command_line(a + b) =~= command_line(a) + seq![' '] + command_line(b));
    } else {
        assert((a + b).drop_last() =~= a + b.drop_last());
        words_are_joined_by_blanks(a, b.drop_last(), word);
        assert(command_line(a + b) =~= command_line(a) + seq![' '] + command_line(b));
    }
}

proof fn lemma_active_stays(reader: WordReader, text: Seq<char>)
    requires
        reader.mode is Active,
    ensures
        reader.after(text) == reader,
    decreases text.len(),
{
    if text.len() > 0 {
        lemma_active_stays(reader, text.drop_last());
    }
}

/// A character of the shell's own, outside quotes, makes a line one that is no
/// mere list of words, whatever follows: operators, expansions, patterns,
/// comments and line ends.
pub proof fn shell_characters_are_active(before: Seq<char>, ch: char, rest: Seq<char>)
    requires
        shell_words(before) is Some,
        seq![
            '&',
            ';',
            '|',
            '<',
            '>',
            '(',
            ')',
            '$',
            '`',
            '"',
            '*',
            '?',
            '[',
            ']',
            '{',
            '}',
            '#',
            '~',
            '!',
            '^',
            '\n',
            '\r',
        ].contains(ch),
    ensures
        shell_words(before.push(ch) + rest) is None,
{
    let start = WordReader::start();
    assert(before.push(ch).drop_last() =~= before);
    lemma_after_add(start, before.push(ch), rest);
    lemma_active_stays(start.after(before.push(ch)), rest);
}

/// Between single quotes a shell takes every character as it is.
pub proof fn quotes_keep_every_character(text: Seq<char>)
    requires
        !text.contains('\''),
    ensures
        shell_words(seq!['\''] + text + seq!['\'']) == Some(seq![text]),
{
    lemma_no_quotes(text);
    let start = WordReader::start();
    let quote = seq!['\''];
    reveal_with_fuel(WordReader::after, 2);
    assert(quote.drop_last() =~= Seq::empty());
    let opened = start.after(quote);
    lemma_after_add(start, quote, text);
    lemma_after_add(start, quote + text, quote);
    lemma_after_escaped(opened, text);
    assert(opened.begun() + text =~= text);
    assert(start.words.push(text) =~= seq![text]);
}

proof fn lemma_no_quotes(text: Seq<char>)
    requires
        !text.contains('\''),
    ensures
        escaped(text) == text,
    decreases text.len(),
{
    if text.len() == 0 {
        assert(escaped(text) =~= text);
    } else {
        let front = text.drop_last();
        assert(text[text.len() - 1] != '\'');
        assert(forall|i: int| 0 <= i < front.len() ==> front[i] == text[i]);
        assert(!front.contains('\''));
        lemma_no_quotes(front);
        assert(front.push(text.last()) =~= text);
    }
}

/// The reader reads on in the same way behind words that are complete.
proof fn lemma_words_behind(words: Seq<Seq<char>>, reader: WordReader, text: Seq<char>)
    ensures
        (WordReader { words: words + reader.words, ..reader }).after(text) == (WordReader {
            words: words + reader.after(text).words,
            ..reader.after(text)
        }),
    decreases text.len(),
{
    if text.len() > 0 {
        lemma_words_behind(words, reader, text.drop_last());
        let middle = reader.after(text.drop_last());
        if let Some(word) = middle.current {
            assert((words + middle.words).push(word) =~= words + middle.words.push(word));
        }
    }
}

/// A blank between two lines of words makes one line of the words of both.
pub proof fn blanks_part_words(a: Seq<char>, b: Seq<char>)
    requires
        shell_words(a) is Some,
        shell_words(b) is Some,
    ensures
        shell_words(a.push(' ') + b) == Some(shell_words(a)->0 + shell_words(b)->0),
{
    let start = WordReader::start();
    let first = shell_words(a)->0;
    assert(a.push(' ').drop_last() =~= a);
    let blank = start.after(a.push(' '));
    assert(blank == (WordReader { words: first, current: None, mode: ReadMode::Bare }));
    lemma_after_add(start, a.push(' '), b);
    assert(first + start.words =~= first);
    lemma_words_behind(first, start, b);
    let end = start.after(b);
    if let Some(word) = end.current {
        assert((first + end.words).push(word) =~= first + end.words.push(word));
    }
}

/// Different arguments never give the same command line.
pub proof fn command_line_is_injective(a: Seq<Seq<char>>, b: Seq<Seq<char>>)
    requires
        a.len() > 0,
        b.len() > 0,
        command_line(a) == command_line(b),
    ensures
        a == b,
{
    command_line_reads_back(a);
    command_line_reads_back(b);
}

} // verus!
