//! Reading the plain text output of `dot`: its lines, their words, and the
//! statement that a line makes.
//!
//! Words are separated by spaces. A double quote starts or ends a stretch in
//! which spaces belong to the word and a backslash makes the character after
//! it literal, `\n`, `\r` and `\t` standing for a line feed, a carriage return
//! and a tab. A line feed or a carriage return ends the line, wherever it
//! stands.
//!
//! The first word of a line names its statement. A `graph` statement has
//! three more words, a `node` statement ten, a `stop` statement none. An
//! `edge` statement names two nodes and a number of control points, then
//! gives two words for each point, optionally three for a label, and two
//! more.

use vstd::prelude::*;
use vstd::string::StringExecFns;

verus! {

/// Whether `c` ends a line.
pub open spec fn is_line_end(c: char) -> bool {
    c == '\n' || c == '\r'
}

/// The character that `c` stands for behind a backslash.
pub open spec fn unescaped(c: char) -> char {
    if c == 'n' {
        '\n'
    } else if c == 'r' {
        '\r'
    } else if c == 't' {
        '\t'
    } else {
        c
    }
}

/// How far a line has been read.
pub struct LineState {
    /// The words that are complete.
    pub words: Seq<Seq<char>>,
    /// The word that is being read; empty between words.
    pub word: Seq<char>,
    /// Whether a double quote is open.
    pub in_string: bool,
    /// Whether the last character was a backslash that makes the next one
    /// literal.
    pub escaping: bool,
}

impl LineState {
    /// The state at the start of a line.
    pub open spec fn start() -> LineState {
        LineState { words: Seq::empty(), word: Seq::empty(), in_string: false, escaping: false }
    }

    /// The words read so far, the one being read included unless it is
    /// empty.
    pub open spec fn all_words(self) -> Seq<Seq<char>> {
        if self.word.len() == 0 {
            self.words
        } else {
            self.words.push(self.word)
        }
    }

    /// The state after the character `c` is read.
    pub open spec fn fed(self, c: char) -> LineState {
        if is_line_end(c) {
            LineState::start()
        } else if self.escaping {
            LineState { word: self.word.push(unescaped(c)), escaping: false, ..self }
        } else if c == '"' {
            LineState { in_string: !self.in_string, ..self }
        } else if c == ' ' && !self.in_string {
            LineState { words: self.all_words(), word: Seq::empty(), ..self }
        } else if c == '\\' && self.in_string {
            LineState { escaping: true, ..self }
        } else {
            LineState { word: self.word.push(c), ..self }
        }
    }

    /// The line that the character `c` completes: the words read so far if
    /// `c` ends the line.
    pub open spec fn line_at(self, c: char) -> Option<Seq<Seq<char>>> {
        if is_line_end(c) {
            Some(self.all_words())
        } else {
            None
        }
    }
}

/// The statement that a line makes.
#[derive(Clone, Copy, Debug, PartialEq, Eq, Structural)]
pub enum StatementKind {
    /// A line without words.
    Empty,
    /// The size of the graph.
    Graph,
    /// A node.
    Node,
    /// An edge.
    Edge,
    /// The end of the graph.
    Stop,
}

/// Why a line makes no statement.
#[derive(Clone, Copy, Debug, PartialEq, Eq, Structural)]
pub enum StatementError {
    /// A `graph` statement without exactly three arguments.
    GraphArguments,
    /// A `node` statement without exactly ten arguments.
    NodeArguments,
    /// A `stop` statement with arguments.
    StopArguments,
    /// A first word that names no statement.
    Unrecognized,
}

/// What follows the control points of an edge statement.
#[derive(Clone, Copy, Debug, PartialEq, Eq, Structural)]
pub enum EdgeShape {
    /// The style and the color.
    Plain,
    /// A label with its two coordinates, then the style and the color.
    Labelled,
}

/// The statement that the words of a line make.
pub open spec fn statement_of(words: Seq<Seq<char>>) -> Result<StatementKind, StatementError> {
    if words.len() == 0 {
        Ok(StatementKind::Empty)
    } else if words[0] == "graph"@ {
        if words.len() == 4 {
            Ok(StatementKind::Graph)
        } else {
            Err(StatementError::GraphArguments)
        }
    } else if words[0] == "node"@ {
        if words.len() == 11 {
            Ok(StatementKind::Node)
        } else {
            Err(StatementError::NodeArguments)
        }
    } else if words[0] == "edge"@ {
        Ok(StatementKind::Edge)
    } else if words[0] == "stop"@ {
        if words.len() == 1 {
            Ok(StatementKind::Stop)
        } else {
            Err(StatementError::StopArguments)
        }
    } else {
        Err(StatementError::Unrecognized)
    }
}

/// The shape of an edge statement of `word_count` words with `points`
/// control points, if it has one.
pub open spec fn edge_shape_of(word_count: int, points: int) -> Option<EdgeShape> {
    if word_count == 9 + points * 2 {
        Some(EdgeShape::Labelled)
    } else if word_count == 6 + points * 2 {
        Some(EdgeShape::Plain)
    } else {
        None
    }
}

/// Tells which statement the words of a line make, by the first word and the
/// number of words.
pub fn statement_kind(words: &Vec<String>) -> (kind: Result<StatementKind, StatementError>)
    ensures
        kind == statement_of(words.deep_view()),
{
    if words.len() == 0 {
        return Ok(StatementKind::Empty);
    }
    let name = &words[0];
    assert(words.deep_view()[0] == name@);
    if *name == String::from_str("graph") {
        if words.len() == 4 {
            Ok(StatementKind::Graph)
        } else {
            Err(StatementError::GraphArguments)
        }
    } else if *name == String::from_str("node") {
        if words.len() == 11 {
            Ok(StatementKind::Node)
        } else {
            Err(StatementError::NodeArguments)
        }
    } else if *name == String::from_str("edge") {
        Ok(StatementKind::Edge)
    } else if *name == String::from_str("stop") {
        if words.len() == 1 {
            Ok(StatementKind::Stop)
        } else {
            Err(StatementError::StopArguments)
        }
    } else {
        Err(StatementError::Unrecognized)
    }
}

/// Tells the shape of an edge statement from its number of words and its
/// number of control points; `None` if no edge statement with that many
/// points has that many words.
pub fn edge_shape(word_count: usize, points: usize) -> (shape: Option<EdgeShape>)
    ensures
        shape == edge_shape_of(word_count as int, points as int),
{
    let words = word_count as u128;
    let points = points as u128;
    if words == 9 + points * 2 {
        Some(EdgeShape::Labelled)
    } else if words == 6 + points * 2 {
        Some(EdgeShape::Plain)
    } else {
        None
    }
}

/// Reads the plain text output of `dot` one character at a time and hands
/// out each line as its words.
pub struct Tokenizer {
    words: Vec<String>,
    word: String,
    in_string: bool,
    escaping: bool,
}

impl View for Tokenizer {
    type V = LineState;

    closed spec fn view(&self) -> LineState {
        LineState {
            words: self.words.deep_view(),
            word: self.word@,
            in_string: self.in_string,
            escaping: self.escaping,
        }
    }
}

impl Tokenizer {
    /// A tokenizer at the start of a line.
    pub fn new() -> (tokenizer: Tokenizer)
        ensures
            tokenizer@ == LineState::start(),
    {
        let tokenizer = Tokenizer {
            words: Vec::new(),
            word: String::new(),
            in_string: false,
            escaping: false,
        };
        assert(tokenizer.words.deep_view() =~= Seq::empty());
        tokenizer
    }

    /// Ends the word that is being read, if there is one.
    fn end_word(&mut self)
        ensures
            final(self)@ == (LineState {
                words: old(self)@.all_words(),
                word: Seq::empty(),
                ..old(self)@
            }),
    {
        if !self.word.as_str().is_empty() {
            let mut word = String::new();
            std::mem::swap(&mut self.word, &mut word);
            self.words.push(word);
            assert(self.words.deep_view() =~= old(self).words.deep_view().push(old(self).word@));
        } else {
            assert(self.word@ =~= Seq::empty());
        }
    }

    /// Reads the character `c`. Where `c` ends a line, the words of that line
    /// come back and the next line starts.
    pub fn feed(&mut self, c: char) -> (line: Option<Vec<String>>)
        ensures
            final(self)@ == old(self)@.fed(c),
            match line {
                Some(words) => old(self)@.line_at(c) == Some(words.deep_view()),
                None => old(self)@.line_at(c) is None,
            },
    {
        if c == '\n' || c == '\r' {
            self.end_word();
            let mut words: Vec<String> = Vec::new();
            std::mem::swap(&mut self.words, &mut words);
            self.in_string = false;
            self.escaping = false;
            assert(self.words.deep_view() =~= Seq::empty());
            return Some(words);
        }
        if self.escaping {
            let literal = if c == 'n' {
                '\n'
            } else if c == 'r' {
                '\r'
            } else if c == 't' {
                '\t'
            } else {
                c
            };
            self.word.push(literal);
            self.escaping = false;
        } else if c == '"' {
            self.in_string = !self.in_string;
        } else if c == ' ' && !self.in_string {
            self.end_word();
        } else if c == '\\' && self.in_string {
            self.escaping = true;
        } else {
            self.word.push(c);
        }
        None
    }
}

} // verus!
