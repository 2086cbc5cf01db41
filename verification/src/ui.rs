//! State of the interactive job manager that the terminal front end
//! drives: the activity filter, the focusable components, and the text
//! input field with its cursor arithmetic. The front end only renders
//! what these types compute.

use vstd::prelude::*;
use vstd::string::StrSliceExecFns;
use crate::seqs::{lemma_take_all, lemma_take_filter_step};
use crate::strutil::{
    char_is_whitespace,
    contains_seq,
    is_space,
    lower_of,
    str_contains,
    str_eq,
    to_lowercase,
};

verus! {

/// The activity filter a table can apply.
#[derive(Debug, PartialEq, Eq, Structural, Clone, Copy)]
pub enum Filter {
    All,
    Active,
    Inactive,
}

impl Filter {
    /// The next filter in the cycle all, active, inactive.
    pub fn next(&self) -> (r: Filter)
        ensures
            r == (match self {
                Filter::All => Filter::Active,
                Filter::Active => Filter::Inactive,
                Filter::Inactive => Filter::All,
            }),
    {
        match self {
            Filter::All => Filter::Active,
            Filter::Active => Filter::Inactive,
            Filter::Inactive => Filter::All,
        }
    }
}

impl Default for Filter {
    /// The filter starts wide open.
    fn default() -> (r: Filter)
        ensures
            r == Filter::All,
    {
        Filter::All
    }
}

/// The text with surrounding whitespace removed.
pub open spec fn trimmed(s: Seq<char>) -> Seq<char> {
    let a = crate::wrap::skip_spaces(s, 0);
    let b = skip_ws(s, s.len() as int);
    if a <= b {
        s.subrange(a, b)
    } else {
        Seq::<char>::empty()
    }
}

/// Removes the whitespace around a token.
fn trim_token(s: &str) -> (r: String)
    ensures
        r@ == trimmed(s@),
{
    let n = s.unicode_len();
    let mut a: usize = 0;
    while a < n && char_is_whitespace(s.get_char(a))
        invariant
            a <= n,
            n == s@.len(),
            crate::wrap::skip_spaces(s@, 0) == crate::wrap::skip_spaces(s@, a as int),
        decreases n - a,
    {
        proof {
            assert(crate::wrap::skip_spaces(s@, a as int) == crate::wrap::skip_spaces(
                s@,
                a as int + 1,
            ));
        }
        a = a + 1;
    }
    let mut b: usize = n;
    while b > 0 && char_is_whitespace(s.get_char(b - 1))
        invariant
            b <= n,
            n == s@.len(),
            skip_ws(s@, n as int) == skip_ws(s@, b as int),
        decreases b,
    {
        proof {
            assert(skip_ws(s@, b as int) == skip_ws(s@, b as int - 1));
        }
        b = b - 1;
    }
    if a >= b {
        String::new()
    } else {
        String::from_str(s.substring_char(a, b))
    }
}

impl Filter {
    /// The filter a token names, whitespace around it ignored; any other
    /// text is refused with the error the form reports.
    pub fn from_str(s: &str) -> (r: Result<Filter, String>)
        ensures
            ({
                let t = trimmed(s@);
                &&& (t == "all"@ ==> r == Ok::<Filter, String>(Filter::All))
                &&& (t == "active"@ ==> r == Ok::<Filter, String>(Filter::Active))
                &&& (t == "inactive"@ ==> r == Ok::<Filter, String>(Filter::Inactive))
                &&& (!(t == "all"@ || t == "active"@ || t == "inactive"@) ==> (r matches Err(m)
                    && m@ == "Could not parse the value ["@ + t + "] to the enum Filter"@))
            }),
    {
        proof {
            // The three tokens have pairwise different lengths.
            reveal_strlit("all");
            reveal_strlit("active");
            reveal_strlit("inactive");
            assert("all"@.len() == 3 && "active"@.len() == 6 && "inactive"@.len() == 8);
        }
        let t = trim_token(s);
        if str_eq(t.as_str(), "all") {
            Ok(Filter::All)
        } else if str_eq(t.as_str(), "active") {
            Ok(Filter::Active)
        } else if str_eq(t.as_str(), "inactive") {
            Ok(Filter::Inactive)
        } else {
            let mut m = String::from_str("Could not parse the value [");
            m.append(t.as_str());
            m.append("] to the enum Filter");
            proof {
                assert(m@ =~= "Could not parse the value ["@ + trimmed(s@)
                    + "] to the enum Filter"@);
            }
            Err(m)
        }
    }
}

/// Everything the front end can focus: input fields, tables, and the
/// frequency sections.
#[derive(Debug, PartialEq, Eq, Structural, Clone, Copy)]
pub enum Component {
    Search,
    Journal,
    Log,
    Source,
    Target,
    Hour,
    Day,
    Daily,
    Weekly,
    RealTime,
    ToReplace,
    ReplaceWith,
}

/// The tokens `Component::from_str` accepts.
pub open spec fn component_token(s: Seq<char>) -> bool {
    s == "source"@ || s == "target"@ || s == "hour"@ || s == "day"@ || s == "daily"@ || s
        == "weekly"@ || s == "realtime"@ || s == "text to replace"@ || s == "replace with"@
}

/// The component a token names.
pub open spec fn component_of(s: Seq<char>) -> Component {
    if s == "source"@ {
        Component::Source
    } else if s == "target"@ {
        Component::Target
    } else if s == "hour"@ {
        Component::Hour
    } else if s == "day"@ {
        Component::Day
    } else if s == "daily"@ {
        Component::Daily
    } else if s == "weekly"@ {
        Component::Weekly
    } else if s == "realtime"@ {
        Component::RealTime
    } else if s == "text to replace"@ {
        Component::ToReplace
    } else {
        Component::ReplaceWith
    }
}

/// The token of each component.
pub open spec fn component_token_of(c: Component) -> Seq<char> {
    match c {
        Component::Search => "search"@,
        Component::Journal => "journal"@,
        Component::Log => "log"@,
        Component::Source => "source"@,
        Component::Target => "target"@,
        Component::Hour => "hour"@,
        Component::Day => "day"@,
        Component::Daily => "daily"@,
        Component::Weekly => "weekly"@,
        Component::RealTime => "realtime"@,
        Component::ToReplace => "text to replace"@,
        Component::ReplaceWith => "replace with"@,
    }
}

/// Where focus moves on a forward step inside the job form (whose shape
/// depends on the frequency) or the replace dialog.
pub open spec fn component_next(c: Component, freq: Option<Component>) -> Component {
    match (freq, c) {
        (Some(Component::RealTime), Component::Target) => Component::Source,
        (Some(Component::Daily), Component::Target) => Component::Hour,
        (Some(Component::Weekly), Component::Target) => Component::Hour,
        (Some(_), Component::Source) => Component::Target,
        (Some(Component::Daily), Component::Hour) => Component::Source,
        (Some(Component::Weekly), Component::Hour) => Component::Day,
        (Some(Component::Weekly), Component::Day) => Component::Source,
        (None, Component::ReplaceWith) => Component::ToReplace,
        (None, Component::ToReplace) => Component::ReplaceWith,
        _ => c,
    }
}

/// Where focus moves on a backward step.
pub open spec fn component_previous(c: Component, freq: Option<Component>) -> Component {
    match (freq, c) {
        (Some(_), Component::Target) => Component::Source,
        (Some(_), Component::Hour) => Component::Target,
        (Some(Component::RealTime), Component::Source) => Component::Target,
        (Some(Component::Daily), Component::Source) => Component::Hour,
        (Some(Component::Weekly), Component::Day) => Component::Hour,
        (Some(Component::Weekly), Component::Source) => Component::Day,
        (None, Component::ReplaceWith) => Component::ToReplace,
        (None, Component::ToReplace) => Component::ReplaceWith,
        _ => c,
    }
}

impl Component {
    /// The component a token names; only the nine form and table tokens
    /// are meaningful here.
    pub fn from_str(s: &str) -> (r: Component)
        requires
            component_token(s@),
        ensures
            r == component_of(s@),
    {
        if str_eq(s, "source") {
            Component::Source
        } else if str_eq(s, "target") {
            Component::Target
        } else if str_eq(s, "hour") {
            Component::Hour
        } else if str_eq(s, "day") {
            Component::Day
        } else if str_eq(s, "daily") {
            Component::Daily
        } else if str_eq(s, "weekly") {
            Component::Weekly
        } else if str_eq(s, "realtime") {
            Component::RealTime
        } else if str_eq(s, "text to replace") {
            Component::ToReplace
        } else {
            Component::ReplaceWith
        }
    }

    /// Each component's token.
    pub fn to_str(&self) -> (r: &'static str)
        ensures
            r@ == component_token_of(*self),
    {
        match self {
            Component::Search => "search",
            Component::Journal => "journal",
            Component::Log => "log",
            Component::Source => "source",
            Component::Target => "target",
            Component::Hour => "hour",
            Component::Day => "day",
            Component::Daily => "daily",
            Component::Weekly => "weekly",
            Component::RealTime => "realtime",
            Component::ToReplace => "text to replace",
            Component::ReplaceWith => "replace with",
        }
    }

    /// Whether the component is a text input field.
    pub fn is_field(&self) -> (r: bool)
        ensures
            r == (match self {
                Component::Search
                | Component::Source
                | Component::Target
                | Component::Hour
                | Component::Day
                | Component::ToReplace
                | Component::ReplaceWith => true,
                _ => false,
            }),
    {
        match self {
            Component::Search
            | Component::Source
            | Component::Target
            | Component::Hour
            | Component::Day
            | Component::ToReplace
            | Component::ReplaceWith => true,
            _ => false,
        }
    }

    /// Whether the component is one of the tables.
    pub fn is_table(&self) -> (r: bool)
        ensures
            r == (match self {
                Component::Daily
                | Component::Weekly
                | Component::RealTime
                | Component::Journal
                | Component::Log => true,
                _ => false,
            }),
    {
        match self {
            Component::Daily
            | Component::Weekly
            | Component::RealTime
            | Component::Journal
            | Component::Log => true,
            _ => false,
        }
    }

    /// Whether the field offers path suggestions.
    pub fn is_listable(&self) -> (r: bool)
        ensures
            r == (match self {
                Component::Source | Component::Target => true,
                _ => false,
            }),
    {
        match self {
            Component::Source | Component::Target => true,
            _ => false,
        }
    }

    /// The next focus target inside the current form.
    pub fn next(self, freq: Option<Component>) -> (r: Component)
        ensures
            r == component_next(self, freq),
    {
        match (freq, &self) {
            (Some(Component::RealTime), Component::Target) => Component::Source,
            (Some(Component::Daily), Component::Target) => Component::Hour,
            (Some(Component::Weekly), Component::Target) => Component::Hour,
            (Some(_), Component::Source) => Component::Target,
            (Some(Component::Daily), Component::Hour) => Component::Source,
            (Some(Component::Weekly), Component::Hour) => Component::Day,
            (Some(Component::Weekly), Component::Day) => Component::Source,
            (None, Component::ReplaceWith) => Component::ToReplace,
            (None, Component::ToReplace) => Component::ReplaceWith,
            _ => self,
        }
    }

    /// The previous focus target inside the current form.
    pub fn previous(self, freq: Option<Component>) -> (r: Component)
        ensures
            r == component_previous(self, freq),
    {
        match (freq, &self) {
            (Some(_), Component::Target) => Component::Source,
            (Some(_), Component::Hour) => Component::Target,
            (Some(Component::RealTime), Component::Source) => Component::Target,
            (Some(Component::Daily), Component::Source) => Component::Hour,
            (Some(Component::Weekly), Component::Day) => Component::Hour,
            (Some(Component::Weekly), Component::Source) => Component::Day,
            (None, Component::ReplaceWith) => Component::ToReplace,
            (None, Component::ToReplace) => Component::ReplaceWith,
            _ => self,
        }
    }
}

/// Which modal dialog is open.
#[derive(Debug, PartialEq, Eq, Structural, Clone, Copy)]
pub enum Modal {
    Job,
    Log,
    Replace,
}

/// A text input field: its value, the cursor's character position, and
/// the path suggestions computed for it.
#[derive(Debug)]
pub struct InputField {
    pub value: String,
    pub index: usize,
    pub suggestions: Vec<String>,
}

/// The characters that end a word for word-wise deletion.
pub open spec fn is_delimiter(c: char) -> bool {
    c == ' ' || c == '/' || c == '.' || c == '-' || c == ','
}

/// Whether the character ends a word.
fn is_delimiter_char(c: char) -> (r: bool)
    ensures
        r == is_delimiter(c),
{
    c == ' ' || c == '/' || c == '.' || c == '-' || c == ','
}

/// The position reached from `i` by stepping left over whitespace.
pub open spec fn skip_ws(s: Seq<char>, i: int) -> int
    decreases i,
{
    if 0 < i <= s.len() && is_space(s[i - 1]) {
        skip_ws(s, i - 1)
    } else {
        i
    }
}

/// The position reached from `i` by stepping left to the nearest
/// delimiter.
pub open spec fn skip_word(s: Seq<char>, i: int) -> int
    decreases i,
{
    if 0 < i <= s.len() && !is_delimiter(s[i - 1]) {
        skip_word(s, i - 1)
    } else {
        i
    }
}

/// Where the word before position `i` starts, one delimiter included.
pub open spec fn prev_word_start(s: Seq<char>, i: int) -> int {
    let j = skip_word(s, skip_ws(s, i));
    if j > 0 {
        j - 1
    } else {
        0
    }
}

/// The cursor's character position, clamped into the value.
pub open spec fn clamped(i: nat, len: nat) -> nat {
    if i <= len {
        i
    } else {
        len
    }
}

impl Default for InputField {
    /// An empty field with the cursor at its start.
    fn default() -> (r: InputField)
        ensures
            r.value@.len() == 0,
            r.index == 0,
            r.suggestions@.len() == 0,
    {
        InputField { value: String::new(), index: 0, suggestions: Vec::new() }
    }
}

impl InputField {
    fn clamp_cursor(&self, new_cursor_pos: usize) -> (r: usize)
        ensures
            r == clamped(new_cursor_pos as nat, self.value@.len()),
    {
        let n = self.value.as_str().unicode_len();
        if new_cursor_pos <= n {
            new_cursor_pos
        } else {
            n
        }
    }

    /// The byte offset of the cursor inside the value's UTF-8 text.
    pub fn byte_index(&self) -> (r: usize)
        ensures
            r == vstd::utf8::encode_utf8(
                self.value@.take(clamped(self.index as nat, self.value@.len()) as int),
            ).len() as usize,
    {
        let n = self.value.as_str().unicode_len();
        let pos = if self.index <= n {
            self.index
        } else {
            n
        };
        let r = self.value.as_str().substring_char(0, pos).len();
        proof {
            assert(self.value@.subrange(0, pos as int) =~= self.value@.take(pos as int));
        }
        r
    }

    /// Inserts one character at the cursor and moves the cursor right.
    pub fn insert_char(&mut self, new_char: char)
        ensures
            final(self).value@ == old(self).value@.insert(
                clamped(old(self).index as nat, old(self).value@.len()) as int,
                new_char,
            ),
            final(self).index == clamped(old(self).index as nat, old(self).value@.len()) + 1,
            final(self).suggestions == old(self).suggestions,
    {
        let mut chars = crate::strutil::str_to_chars(self.value.as_str());
        let pos = if self.index <= chars.len() {
            self.index
        } else {
            chars.len()
        };
        chars.insert(pos, new_char);
        let n2 = chars.len();
        self.value = crate::strutil::chars_to_string(&chars);
        self.index = if pos < n2 {
            pos + 1
        } else {
            n2
        };
    }

    /// Inserts pasted text at the cursor and moves the cursor past it by
    /// the pasted character count. The text itself comes from the caller,
    /// which owns the clipboard.
    pub fn insert_paste(&mut self, pasted: &str)
        requires
            old(self).index + pasted@.len() <= usize::MAX,
        ensures
            final(self).value@ == old(self).value@.take(
                clamped(old(self).index as nat, old(self).value@.len()) as int,
            ) + pasted@ + old(self).value@.skip(
                clamped(old(self).index as nat, old(self).value@.len()) as int,
            ),
            final(self).index == old(self).index + pasted@.len(),
            final(self).suggestions == old(self).suggestions,
    {
        let n = self.value.as_str().unicode_len();
        let pos = if self.index <= n {
            self.index
        } else {
            n
        };
        let mut r = String::from_str(self.value.as_str().substring_char(0, pos));
        r.append(pasted);
        r.append(self.value.as_str().substring_char(pos, n));
        proof {
            assert(r@ =~= self.value@.take(pos as int) + pasted@ + self.value@.skip(pos as int));
        }
        self.value = r;
        self.index = self.index + pasted.unicode_len();
    }

    /// Moves the cursor one character left, staying inside the value.
    pub fn move_cursor_left(&mut self)
        ensures
            final(self).index == clamped(
                (if old(self).index > 0 {
                    old(self).index - 1
                } else {
                    0
                }) as nat,
                old(self).value@.len(),
            ),
            final(self).value == old(self).value,
            final(self).suggestions == old(self).suggestions,
    {
        let moved = if self.index > 0 {
            self.index - 1
        } else {
            0
        };
        self.index = self.clamp_cursor(moved);
    }

    /// Moves the cursor one character right, staying inside the value.
    pub fn move_cursor_right(&mut self)
        ensures
            final(self).index == (if old(self).index < old(self).value@.len() {
                old(self).index + 1
            } else {
                old(self).value@.len() as int
            }),
            final(self).value == old(self).value,
            final(self).suggestions == old(self).suggestions,
    {
        let n = self.value.as_str().unicode_len();
        if self.index < n {
            self.index = self.index + 1;
        } else {
            self.index = n;
        }
    }

    /// Deletes the character left of the cursor, when there is one, and
    /// moves the cursor onto the gap.
    pub fn delete_prev_char(&mut self)
        ensures
            old(self).index == 0 ==> *final(self) == *old(self),
            old(self).index > 0 ==> ({
                let len = old(self).value@.len();
                let a = clamped((old(self).index - 1) as nat, len) as int;
                let b = clamped(old(self).index as nat, len) as int;
                &&& final(self).value@ == old(self).value@.take(a) + old(self).value@.skip(b)
                &&& final(self).index == clamped(
                    (old(self).index - 1) as nat,
                    final(self).value@.len(),
                )
                &&& final(self).suggestions == old(self).suggestions
            }),
    {
        if self.index != 0 {
            let new_value = splice_out(self.value.as_str(), self.index - 1, self.index);
            self.value = new_value;
            let moved = self.index - 1;
            self.index = self.clamp_cursor(moved);
        }
    }

    /// Deletes the character under the cursor; the rightmost-cursor
    /// test reads the cursor's character position against the value's
    /// byte length.
    pub fn delete_next_char(&mut self)
        ensures
            old(self).index >= vstd::utf8::encode_utf8(old(self).value@).len() as usize
                ==> *final(self) == *old(self),
            old(self).index < vstd::utf8::encode_utf8(old(self).value@).len() as usize ==> ({
                let len = old(self).value@.len();
                let a = clamped(old(self).index as nat, len) as int;
                let b = clamped((old(self).index + 1) as nat, len) as int;
                &&& final(self).value@ == old(self).value@.take(a) + old(self).value@.skip(b)
                &&& final(self).index == old(self).index
                &&& final(self).suggestions == old(self).suggestions
            }),
    {
        if self.index < self.value.as_str().len() {
            let new_value = splice_out(self.value.as_str(), self.index, self.index + 1);
            self.value = new_value;
        }
    }

    /// Deletes the word left of the cursor: any whitespace directly
    /// before it, then back to the nearest delimiter, which is deleted
    /// too.
    pub fn delete_prev_word(&mut self)
        requires
            old(self).index <= old(self).value@.len(),
        ensures
            old(self).index == 0 ==> *final(self) == *old(self),
            old(self).index > 0 ==> ({
                let start = prev_word_start(old(self).value@, old(self).index as int);
                &&& final(self).value@ == old(self).value@.take(start) + old(self).value@.skip(
                    old(self).index as int,
                )
                &&& final(self).index == start
                &&& final(self).suggestions == old(self).suggestions
            }),
    {
        if self.index != 0 {
            let chars = crate::strutil::str_to_chars(self.value.as_str());
            let mut j: usize = self.index;
            while j > 0 && char_is_whitespace(chars[j - 1])
                invariant
                    j <= self.index,
                    j <= chars@.len(),
                    chars@ == self.value@,
                    skip_ws(self.value@, self.index as int) == skip_ws(self.value@, j as int),
                decreases j,
            {
                j = j - 1;
            }
            while j > 0 && !is_delimiter_char(chars[j - 1])
                invariant
                    j <= self.index,
                    j <= chars@.len(),
                    chars@ == self.value@,
                    skip_word(self.value@, skip_ws(self.value@, self.index as int)) == skip_word(
                        self.value@,
                        j as int,
                    ),
                decreases j,
            {
                j = j - 1;
            }
            let new_index = if j > 0 {
                j - 1
            } else {
                0
            };
            let new_value = splice_out(self.value.as_str(), new_index, self.index);
            self.value = new_value;
            self.index = new_index;
        }
    }
}

/// `s` with the characters of positions `[from, to)` removed; positions
/// are clamped into the string.
pub fn splice_out(s: &str, from: usize, to: usize) -> (r: String)
    requires
        from <= to,
    ensures
        r@ == s@.take(clamped(from as nat, s@.len()) as int) + s@.skip(
            clamped(to as nat, s@.len()) as int,
        ),
{
    let n = s.unicode_len();
    let a = if from <= n {
        from
    } else {
        n
    };
    let b = if to <= n {
        to
    } else {
        n
    };
    let mut r = String::new();
    let head = s.substring_char(0, a);
    let tail = s.substring_char(b, n);
    r.append(head);
    r.append(tail);
    r
}

/// The suggestion rule on one candidate: its file name, lowercased,
/// contains the lowercased query.
pub open spec fn suggestion_matches(name: Seq<char>, query: Seq<char>) -> bool {
    contains_seq(lower_of(name), lower_of(query))
}

/// Keeps, of the `(file name, full path)` candidates a directory listing
/// offers, those whose file name contains the query, case folded.
pub fn filter_suggestions(candidates: &Vec<(String, String)>, query: &str) -> (r: Vec<
    (String, String),
>)
    ensures
        r@ == candidates@.filter(|c: (String, String)| suggestion_matches(c.0@, query@)),
{
    let ghost pred = |c: (String, String)| suggestion_matches(c.0@, query@);
    let q = to_lowercase(query);
    let mut r: Vec<(String, String)> = Vec::new();
    let mut i: usize = 0;
    while i < candidates.len()
        invariant
            i <= candidates@.len(),
            r@ == candidates@.take(i as int).filter(pred),
            q@ == lower_of(query@),
            pred == (|c: (String, String)| suggestion_matches(c.0@, query@)),
        decreases candidates@.len() - i,
    {
        proof {
            lemma_take_filter_step(candidates@, pred, i as int);
        }
        let c = &candidates[i];
        let low = to_lowercase(c.0.as_str());
        if str_contains(low.as_str(), q.as_str()) {
            let item = (c.0.clone(), c.1.clone());
            proof {
                assert(item == candidates@[i as int]);
            }
            r.push(item);
        }
        i = i + 1;
    }
    proof {
        lemma_take_all(candidates@);
    }
    r
}

} // verus!
