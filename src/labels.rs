//! The grammar of label and annotation tokens.
//!
//! A label token is either a single `key=value` pair or a block of
//! `key: value` lines, one pair per line, blank lines ignored. An annotation
//! token is a single `key=value` pair split at its first `=`.
use vstd::prelude::*;
use crate::text::{decimal, decimal_of, split_at_char, split_on, views_of};

verus! {

/// One label or annotation.
#[derive(Debug, Clone, PartialEq, Eq)]
pub struct KeyValue {
    pub key: String,
    pub value: String,
}

impl View for KeyValue {
    type V = (Seq<char>, Seq<char>);

    open spec fn view(&self) -> (Seq<char>, Seq<char>) {
        (self.key@, self.value@)
    }
}

pub type Labels = Vec<KeyValue>;

pub type Annotations = Vec<KeyValue>;

/// The views of a list of pairs.
pub open spec fn pairs_of(v: Seq<KeyValue>) -> Seq<(Seq<char>, Seq<char>)> {
    v.map_values(|kv: KeyValue| kv@)
}

/// Why a token was refused.
#[derive(PartialEq, Eq, Structural, Clone, Copy, Debug)]
pub enum ParseReason {
    /// The line holds neither `=` nor `:`.
    MissingSeparator,
    /// Nothing stands before the separator.
    EmptyKey,
    /// The key holds a character outside the key alphabet, or a misplaced `/`.
    InvalidKey,
}

/// A refused token: the whole input, the number of the offending line
/// counting from 1 (always 1 for a single pair) and the reason.
#[derive(Debug)]
pub struct ParseError {
    pub input: String,
    pub line: usize,
    pub reason: ParseReason,
}

pub open spec fn is_key_char(c: char) -> bool {
    ('a' <= c && c <= 'z') || ('A' <= c && c <= 'Z') || ('0' <= c && c <= '9') || c == '-' || c == '_'
        || c == '.'
}

/// A key is a name of key characters, optionally qualified by a prefix and a
/// single `/` (`example.com/team`): the `/` is neither first nor last.
pub open spec fn valid_key(k: Seq<char>) -> bool {
    &&& k.len() > 0
    &&& forall|i: int|
        0 <= i < k.len() ==> is_key_char(#[trigger] k[i]) || (k[i] == '/' && 0 < i < k.len() - 1)
    &&& forall|i: int, j: int|
        0 <= i < k.len() && 0 <= j < k.len() && #[trigger] k[i] == '/' && #[trigger] k[j] == '/' ==> i
            == j
}

pub open spec fn is_sep(c: char) -> bool {
    c == '=' || c == ':'
}

/// Index of the first `=` or `:` in `l`; `l.len()` where there is none.
pub open spec fn first_sep(l: Seq<char>) -> nat
    decreases l.len(),
{
    if l.len() == 0 {
        0
    } else if is_sep(l[0]) {
        0
    } else {
        1 + first_sep(l.drop_first())
    }
}

/// Index of the first `=` in `l`; `l.len()` where there is none.
pub open spec fn first_eq(l: Seq<char>) -> nat
    decreases l.len(),
{
    if l.len() == 0 {
        0
    } else if l[0] == '=' {
        0
    } else {
        1 + first_eq(l.drop_first())
    }
}

/// Number of spaces at the start of `v`.
pub open spec fn leading_spaces(v: Seq<char>) -> nat
    decreases v.len(),
{
    if v.len() > 0 && v[0] == ' ' {
        1 + leading_spaces(v.drop_first())
    } else {
        0
    }
}

/// The key of a line ends at its first separator. After `=` the value is the
/// rest of the line as it stands; after `:` leading spaces are dropped.
pub open spec fn parse_pair(l: Seq<char>) -> Result<(Seq<char>, Seq<char>), ParseReason> {
    let i = first_sep(l);
    if i >= l.len() {
        Err(ParseReason::MissingSeparator)
    } else if i == 0 {
        Err(ParseReason::EmptyKey)
    } else if !valid_key(l.take(i as int)) {
        Err(ParseReason::InvalidKey)
    } else if l[i as int] == '=' {
        Ok((l.take(i as int), l.skip(i as int + 1)))
    } else {
        let rest = l.skip(i as int + 1);
        Ok((l.take(i as int), rest.skip(leading_spaces(rest) as int)))
    }
}

pub open spec fn is_blank_char(c: char) -> bool {
    c == ' ' || c == '\t' || c == '\r'
}

pub open spec fn is_blank(l: Seq<char>) -> bool {
    forall|i: int| 0 <= i < l.len() ==> is_blank_char(#[trigger] l[i])
}

/// The pairs of a sequence of lines, blank lines skipped; on failure the index
/// of the first line refused and why.
pub open spec fn parse_lines(ls: Seq<Seq<char>>) -> Result<
    Seq<(Seq<char>, Seq<char>)>,
    (nat, ParseReason),
>
    decreases ls.len(),
{
    if ls.len() == 0 {
        Ok(Seq::empty())
    } else {
        match parse_lines(ls.drop_last()) {
            Err(e) => Err(e),
            Ok(ps) => if is_blank(ls.last()) {
                Ok(ps)
            } else {
                match parse_pair(ls.last()) {
                    Err(r) => Err(((ls.len() - 1) as nat, r)),
                    Ok(p) => Ok(ps.push(p)),
                }
            },
        }
    }
}

/// What a label token stands for.
pub open spec fn parse_labels(s: Seq<char>) -> Result<
    Seq<(Seq<char>, Seq<char>)>,
    (nat, ParseReason),
> {
    parse_lines(split_on(s, '\n'))
}

/// What an annotation token stands for: one pair split at the first `=`.
pub open spec fn parse_annotation(s: Seq<char>) -> Result<(Seq<char>, Seq<char>), ParseReason> {
    let i = first_eq(s);
    if i >= s.len() {
        Err(ParseReason::MissingSeparator)
    } else if i == 0 {
        Err(ParseReason::EmptyKey)
    } else if !valid_key(s.take(i as int)) {
        Err(ParseReason::InvalidKey)
    } else {
        Ok((s.take(i as int), s.skip(i as int + 1)))
    }
}

proof fn lemma_first_sep(l: Seq<char>, i: int)
    requires
        0 <= i <= l.len(),
        forall|j: int| 0 <= j < i ==> !is_sep(#[trigger] l[j]),
        i == l.len() || is_sep(l[i]),
    ensures
        first_sep(l) == i,
    decreases i,
{
    if i > 0 {
        assert forall|j: int| 0 <= j < i - 1 implies !is_sep(#[trigger] l.drop_first()[j]) by {
            assert(l.drop_first()[j] == l[j + 1]);
        }
        lemma_first_sep(l.drop_first(), i - 1);
    }
}

proof fn lemma_first_eq(l: Seq<char>, i: int)
    requires
        0 <= i <= l.len(),
        forall|j: int| 0 <= j < i ==> #[trigger] l[j] != '=',
        i == l.len() || l[i] == '=',
    ensures
        first_eq(l) == i,
    decreases i,
{
    if i > 0 {
        assert forall|j: int| 0 <= j < i - 1 implies #[trigger] l.drop_first()[j] != '=' by {
            assert(l.drop_first()[j] == l[j + 1]);
        }
        lemma_first_eq(l.drop_first(), i - 1);
    }
}

proof fn lemma_leading_spaces(v: Seq<char>, i: int)
    requires
        0 <= i <= v.len(),
        forall|j: int| 0 <= j < i ==> #[trigger] v[j] == ' ',
        i == v.len() || v[i] != ' ',
    ensures
        leading_spaces(v) == i,
    decreases i,
{
    if i > 0 {
        assert forall|j: int| 0 <= j < i - 1 implies #[trigger] v.drop_first()[j] == ' ' by {
            assert(v.drop_first()[j] == v[j + 1]);
        }
        lemma_leading_spaces(v.drop_first(), i - 1);
    }
}

fn is_key_char_exec(c: char) -> (r: bool)
    ensures
        r == is_key_char(c),
{
    ('a' <= c && c <= 'z') || ('A' <= c && c <= 'Z') || ('0' <= c && c <= '9') || c == '-' || c == '_'
        || c == '.'
}

/// Whether `k` is a well-formed key.
pub fn is_valid_key(k: &str) -> (r: bool)
    ensures
        r == valid_key(k@),
{
    let n = k.unicode_len();
    if n == 0 {
        return false;
    }
    let mut slash: Option<usize> = None;
    let mut i: usize = 0;
    while i < n
        invariant
            n == k@.len(),
            n > 0,
            i <= n,
            forall|j: int|
                0 <= j < i ==> is_key_char(#[trigger] k@[j]) || (k@[j] == '/' && 0 < j < n - 1),
            match slash {
                None => forall|j: int| 0 <= j < i ==> #[trigger] k@[j] != '/',
                Some(p) => p < i && k@[p as int] == '/' && forall|j: int|
                    0 <= j < i && #[trigger] k@[j] == '/' ==> j == p,
            },
        decreases n - i,
    {
        let c = k.get_char(i);
        if c == '/' {
            if i == 0 || i == n - 1 {
                return false;
            }
            match slash {
                Some(p) => {
                    assert(k@[p as int] == '/' && k@[i as int] == '/');
                    return false;
                },
                None => {
                    slash = Some(i);
                },
            }
        } else if !is_key_char_exec(c) {
            return false;
        }
        i = i + 1;
    }
    true
}

fn is_blank_exec(l: &str) -> (r: bool)
    ensures
        r == is_blank(l@),
{
    let n = l.unicode_len();
    let mut i: usize = 0;
    while i < n
        invariant
            n == l@.len(),
            i <= n,
            forall|j: int| 0 <= j < i ==> is_blank_char(#[trigger] l@[j]),
        decreases n - i,
    {
        let c = l.get_char(i);
        if !(c == ' ' || c == '\t' || c == '\r') {
            return false;
        }
        i = i + 1;
    }
    true
}

fn parse_pair_exec(l: &str) -> (r: Result<KeyValue, ParseReason>)
    ensures
        match r {
            Ok(kv) => parse_pair(l@) == Ok::<_, ParseReason>(kv@),
            Err(e) => parse_pair(l@) == Err::<(Seq<char>, Seq<char>), _>(e),
        },
{
    let n = l.unicode_len();
    let mut i: usize = 0;
    while i < n
        invariant
            n == l@.len(),
            i <= n,
            forall|j: int| 0 <= j < i ==> !is_sep(#[trigger] l@[j]),
        ensures
            i <= n,
            forall|j: int| 0 <= j < i ==> !is_sep(#[trigger] l@[j]),
            i == n || is_sep(l@[i as int]),
        decreases n - i,
    {
        let c = l.get_char(i);
        if c == '=' || c == ':' {
            break;
        }
        i = i + 1;
    }
    proof {
        lemma_first_sep(l@, i as int);
    }
    if i == n {
        return Err(ParseReason::MissingSeparator);
    }
    if i == 0 {
        return Err(ParseReason::EmptyKey);
    }
    let key = l.substring_char(0, i);
    proof {
        assert(key@ =~= l@.take(i as int));
    }
    if !is_valid_key(key) {
        return Err(ParseReason::InvalidKey);
    }
    let sep = l.get_char(i);
    let mut start: usize = i + 1;
    if sep == ':' {
        while start < n
            invariant
                n == l@.len(),
                i < start <= n,
                forall|j: int| i + 1 <= j < start ==> #[trigger] l@[j] == ' ',
            ensures
                i < start <= n,
                forall|j: int| i + 1 <= j < start ==> #[trigger] l@[j] == ' ',
                start == n || l@[start as int] != ' ',
            decreases n - start,
        {
            if l.get_char(start) != ' ' {
                break;
            }
            start = start + 1;
        }
        proof {
            let rest = l@.skip(i as int + 1);
            assert forall|j: int| 0 <= j < start - i - 1 implies #[trigger] rest[j] == ' ' by {
                assert(rest[j] == l@[j + i + 1]);
            }
            lemma_leading_spaces(rest, start - i - 1);
            assert(rest.skip(start - i - 1) =~= l@.skip(start as int));
        }
    }
    let value = l.substring_char(start, n);
    proof {
        assert(value@ =~= l@.skip(start as int));
    }
    Ok(KeyValue { key: key.to_owned(), value: value.to_owned() })
}

/// The label grammar as a value, for callers that hold a parser.
#[derive(Debug)]
pub struct LabelParser;

impl LabelParser {
    /// Parses a label token; see [`labels_from_str`].
    pub fn parse(&self, input: &str) -> (r: Result<Labels, ParseError>)
        ensures
            match r {
                Ok(v) => parse_labels(input@) == Ok::<_, (nat, ParseReason)>(pairs_of(v@)),
                Err(e) => e.input@ == input@ && parse_labels(input@) == Err::<
                    Seq<(Seq<char>, Seq<char>)>,
                    _,
                >(((e.line - 1) as nat, e.reason)) && e.line >= 1,
            },
    {
        labels_from_str(input)
    }
}

/// Parses a label token: one `key=value` pair, or a block of `key: value`
/// lines with blank lines ignored.
pub fn labels_from_str(input: &str) -> (r: Result<Labels, ParseError>)
    ensures
        match r {
            Ok(v) => parse_labels(input@) == Ok::<_, (nat, ParseReason)>(pairs_of(v@)),
            Err(e) => e.input@ == input@ && parse_labels(input@) == Err::<
                Seq<(Seq<char>, Seq<char>)>,
                _,
            >(((e.line - 1) as nat, e.reason)) && e.line >= 1,
        },
{
    let lines = split_at_char(input, '\n');
    let ghost ls = views_of(lines@);
    let mut res: Vec<KeyValue> = Vec::new();
    let mut j: usize = 0;
    proof {
        assert(ls.take(0) =~= Seq::<Seq<char>>::empty());
        assert(pairs_of(res@) =~= Seq::<(Seq<char>, Seq<char>)>::empty());
    }
    while j < lines.len()
        invariant
            ls == views_of(lines@),
            ls == split_on(input@, '\n'),
            j <= lines.len(),
            parse_lines(ls.take(j as int)) == Ok::<_, (nat, ParseReason)>(pairs_of(res@)),
        decreases lines.len() - j,
    {
        let line = lines[j].as_str();
        proof {
            assert(ls.take(j as int + 1).drop_last() =~= ls.take(j as int));
            assert(ls.take(j as int + 1).last() == line@);
        }
        if !is_blank_exec(line) {
            match parse_pair_exec(line) {
                Ok(kv) => {
                    let ghost prev = res@;
                    res.push(kv);
                    proof {
                        assert(pairs_of(res@) =~= pairs_of(prev).push(kv@));
                    }
                },
                Err(reason) => {
                    proof {
                        assert(ls.take(j as int + 1).len() - 1 == j);
                        crate::text::lemma_split_on_nonempty(input@, '\n');
                        lemma_parse_lines_err_prefix(ls, j as int + 1);
                    }
                    return Err(ParseError { input: input.to_owned(), line: j + 1, reason });
                },
            }
        }
        j = j + 1;
    }
    proof {
        assert(ls.take(lines.len() as int) =~= ls);
    }
    Ok(res)
}

/// A failure on a prefix of the lines is the failure of the whole.
proof fn lemma_parse_lines_err_prefix(ls: Seq<Seq<char>>, k: int)
    requires
        0 <= k <= ls.len(),
        parse_lines(ls.take(k)) is Err,
    ensures
        parse_lines(ls) == parse_lines(ls.take(k)),
    decreases ls.len() - k,
{
    if k < ls.len() {
        assert(ls.take(k + 1).drop_last() =~= ls.take(k));
        lemma_parse_lines_err_prefix(ls, k + 1);
    } else {
        assert(ls.take(k) =~= ls);
    }
}

/// Parses an annotation token: one `key=value` pair split at the first `=`,
/// so that the value may hold further `=` signs.
pub fn annotation_from_str(input: &str) -> (r: Result<KeyValue, ParseError>)
    ensures
        match r {
            Ok(kv) => parse_annotation(input@) == Ok::<_, ParseReason>(kv@),
            Err(e) => e.input@ == input@ && e.line == 1 && parse_annotation(input@) == Err::<
                (Seq<char>, Seq<char>),
                _,
            >(e.reason),
        },
{
    let n = input.unicode_len();
    let mut i: usize = 0;
    while i < n
        invariant
            n == input@.len(),
            i <= n,
            forall|j: int| 0 <= j < i ==> #[trigger] input@[j] != '=',
        ensures
            i <= n,
            forall|j: int| 0 <= j < i ==> #[trigger] input@[j] != '=',
            i == n || input@[i as int] == '=',
        decreases n - i,
    {
        if input.get_char(i) == '=' {
            break;
        }
        i = i + 1;
    }
    proof {
        lemma_first_eq(input@, i as int);
    }
    if i == n {
        return Err(ParseError { input: input.to_owned(), line: 1, reason: ParseReason::MissingSeparator });
    }
    if i == 0 {
        return Err(ParseError { input: input.to_owned(), line: 1, reason: ParseReason::EmptyKey });
    }
    let key = input.substring_char(0, i);
    proof {
        assert(key@ =~= input@.take(i as int));
    }
    if !is_valid_key(key) {
        return Err(ParseError { input: input.to_owned(), line: 1, reason: ParseReason::InvalidKey });
    }
    let value = input.substring_char(i + 1, n);
    proof {
        assert(value@ =~= input@.skip(i as int + 1));
    }
    Ok(KeyValue { key: key.to_owned(), value: value.to_owned() })
}

/// The `key=value` form of a pair.
pub open spec fn token_of(k: Seq<char>, v: Seq<char>) -> Seq<char> {
    k + seq!['='] + v
}

impl KeyValue {
    pub fn new(key: String, value: String) -> (r: KeyValue)
        ensures
            r@ == (key@, value@),
    {
        KeyValue { key, value }
    }

    /// Renders the pair as `key=value`.
    pub fn to_token(&self) -> (r: String)
        ensures
            r@ == token_of(self.key@, self.value@),
    {
        let mut r = self.key.clone();
        r.append("=");
        proof {
            reveal_strlit("=");
        }
        r.append(self.value.as_str());
        r
    }
}

proof fn lemma_split_without_sep(s: Seq<char>, sep: char)
    requires
        forall|i: int| 0 <= i < s.len() ==> #[trigger] s[i] != sep,
    ensures
        split_on(s, sep) == seq![s],
    decreases s.len(),
{
    if s.len() > 0 {
        lemma_split_without_sep(s.drop_last(), sep);
        assert(s.drop_last().push(s.last()) =~= s);
        assert(seq![s.drop_last()].update(0, s.drop_last().push(s.last())) =~= seq![s]);
    } else {
        assert(s =~= Seq::<char>::empty());
    }
}

/// Round trip of a single pair: a well-formed key, `=`, and a value on one
/// line parse as a label token to exactly that pair, which renders back to the
/// same token.
pub proof fn lemma_label_round_trip(k: Seq<char>, v: Seq<char>)
    requires
        valid_key(k),
        forall|i: int| 0 <= i < v.len() ==> #[trigger] v[i] != '\n',
    ensures
        parse_labels(token_of(k, v)) == Ok::<_, (nat, ParseReason)>(seq![(k, v)]),
{
    let t = token_of(k, v);
    assert forall|i: int| 0 <= i < t.len() implies #[trigger] t[i] != '\n' by {
        if i < k.len() {
            assert(t[i] == k[i]);
        } else if i > k.len() {
            assert(t[i] == v[i - k.len() - 1]);
        }
    }
    lemma_split_without_sep(t, '\n');
    assert(!is_blank(t)) by {
        assert(t[0] == k[0]);
    }
    assert forall|j: int| 0 <= j < k.len() implies !is_sep(#[trigger] t[j]) by {
        assert(t[j] == k[j]);
    }
    lemma_first_sep(t, k.len() as int);
    assert(t.take(k.len() as int) =~= k);
    assert(t.skip(k.len() as int + 1) =~= v);
    assert(t[k.len() as int] == '=');
    assert(parse_pair(t) == Ok::<_, ParseReason>((k, v)));
    assert(seq![t].drop_last() =~= Seq::<Seq<char>>::empty());
    assert(seq![t].last() == t);
    assert(parse_lines(Seq::<Seq<char>>::empty()) == Ok::<_, (nat, ParseReason)>(
        Seq::<(Seq<char>, Seq<char>)>::empty(),
    ));
    assert(Seq::<(Seq<char>, Seq<char>)>::empty().push((k, v)) =~= seq![(k, v)]);
}

/// Round trip of an annotation: any value, `=` signs and newlines included,
/// comes back unchanged after a well-formed key and `=`.
pub proof fn lemma_annotation_round_trip(k: Seq<char>, v: Seq<char>)
    requires
        valid_key(k),
    ensures
        parse_annotation(token_of(k, v)) == Ok::<_, ParseReason>((k, v)),
{
    let t = token_of(k, v);
    assert forall|j: int| 0 <= j < k.len() implies #[trigger] t[j] != '=' by {
        assert(t[j] == k[j]);
    }
    lemma_first_eq(t, k.len() as int);
    assert(t.take(k.len() as int) =~= k);
    assert(t.skip(k.len() as int + 1) =~= v);
}

pub open spec fn reason_text(r: ParseReason) -> Seq<char> {
    match r {
        ParseReason::MissingSeparator => "expected a `key=value` or `key: value` pair"@,
        ParseReason::EmptyKey => "the key is empty"@,
        ParseReason::InvalidKey => "the key holds characters other than letters, digits, '-', '_', '.' and one inner '/'"@,
    }
}

impl ParseError {
    /// The text that a failure of this kind shows.
    pub open spec fn message_of(line: nat, reason: ParseReason) -> Seq<char> {
        reason_text(reason) + " (line "@ + decimal_of(line) + ")"@
    }

    /// A human-readable account of the failure.
    pub fn message(&self) -> (r: String)
        ensures
            r@ == Self::message_of(self.line as nat, self.reason),
    {
        let mut r = match self.reason {
            ParseReason::MissingSeparator => String::from_str("expected a `key=value` or `key: value` pair"),
            ParseReason::EmptyKey => String::from_str("the key is empty"),
            ParseReason::InvalidKey => String::from_str("the key holds characters other than letters, digits, '-', '_', '.' and one inner '/'"),
        };
        r.append(" (line ");
        r.append(decimal(self.line).as_str());
        r.append(")");
        r
    }
}

} // verus!
