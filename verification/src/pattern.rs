//! Volume shorthands: `<host_path>:<container_path>[:ro]`.
//!
//! A shorthand is cut at every `:`. One field is a container path alone, two
//! are a host side and a container path, three add a mode, which is `ro` or
//! empty. The host side decides the kind of the reference: empty is an
//! anonymous volume, a text without `/` names a volume, anything else is a
//! path on the host to bind.

use vstd::prelude::*;
use crate::text::{chars_of, views};

verus! {

/// What the host side of a shorthand refers to.
#[derive(Debug, Clone, Copy, PartialEq, Eq, Structural)]
pub enum PatternType {
    Anonymous,
    BindMount,
    Named,
}

/// Why a shorthand was turned down.
#[derive(Debug, Clone, Copy, PartialEq, Eq, Structural)]
pub enum ParseError {
    /// More than three fields.
    Syntax,
    /// A third field that is neither empty nor `ro`.
    Mode,
}

/// The message that goes with a parse failure.
pub open spec fn parse_message_of(error: ParseError) -> Seq<char> {
    match error {
        ParseError::Syntax => "Invalid volumes mapping syntax: more than three fields"@,
        ParseError::Mode => "Invalid volumes mapping syntax: the mode is neither empty nor ro"@,
    }
}

impl ParseError {
    /// A short message for people.
    pub fn message(&self) -> (text: String)
        ensures
            text@ == parse_message_of(*self),
    {
        match self {
            ParseError::Syntax => "Invalid volumes mapping syntax: more than three fields".to_owned(),
            ParseError::Mode => {
                "Invalid volumes mapping syntax: the mode is neither empty nor ro".to_owned()
            },
        }
    }
}

/// A parsed shorthand.
#[derive(Debug)]
pub struct VolumePattern {
    pub host_path: String,
    pub container_path: String,
    pub read_only: bool,
    pub pattern_type: PatternType,
}

/// The mathematical value of a [`VolumePattern`].
pub struct PatternView {
    pub host_path: Seq<char>,
    pub container_path: Seq<char>,
    pub read_only: bool,
    pub pattern_type: PatternType,
}

impl View for VolumePattern {
    type V = PatternView;

    open spec fn view(&self) -> PatternView {
        PatternView {
            host_path: self.host_path@,
            container_path: self.container_path@,
            read_only: self.read_only,
            pattern_type: self.pattern_type,
        }
    }
}

/// The fields of `s` between occurrences of `sep`: always at least one, and
/// one more than `sep` occurs in `s`.
pub open spec fn split_on(s: Seq<char>, sep: char) -> Seq<Seq<char>>
    decreases s.len(),
{
    if s.len() == 0 {
        seq![Seq::<char>::empty()]
    } else if s.last() == sep {
        split_on(s.drop_last(), sep).push(Seq::<char>::empty())
    } else {
        let before = split_on(s.drop_last(), sep);
        before.drop_last().push(before.last().push(s.last()))
    }
}

/// The mode field that marks a read-only mount.
pub open spec fn read_only_mode() -> Seq<char> {
    seq!['r', 'o']
}

/// The kind of reference that a host side stands for.
pub open spec fn classify(host_path: Seq<char>) -> PatternType {
    if host_path.len() == 0 {
        PatternType::Anonymous
    } else if !host_path.contains('/') {
        PatternType::Named
    } else {
        PatternType::BindMount
    }
}

/// What a shorthand means.
pub open spec fn parse_pattern(s: Seq<char>) -> Result<PatternView, ParseError> {
    let fields = split_on(s, ':');
    if fields.len() > 3 {
        Err(ParseError::Syntax)
    } else {
        let host_path = if fields.len() == 1 {
            Seq::<char>::empty()
        } else {
            fields[0]
        };
        let container_path = if fields.len() == 1 {
            fields[0]
        } else {
            fields[1]
        };
        let mode = if fields.len() == 3 {
            fields[2]
        } else {
            Seq::<char>::empty()
        };
        if mode.len() != 0 && mode != read_only_mode() {
            Err(ParseError::Mode)
        } else {
            Ok(
                PatternView {
                    host_path,
                    container_path,
                    read_only: mode.len() != 0,
                    pattern_type: classify(host_path),
                },
            )
        }
    }
}

/// The shorthand that stands for a pattern: host side, `:`, container path,
/// and `:ro` where the mount is read-only.
pub open spec fn render_pattern(p: PatternView) -> Seq<char> {
    let base = p.host_path + seq![':'] + p.container_path;
    if p.read_only {
        base + seq![':'] + read_only_mode()
    } else {
        base
    }
}

/// A pattern that a shorthand can stand for: no `:` inside its two paths, and
/// the kind that its host side calls for.
pub open spec fn is_canonical(p: PatternView) -> bool {
    &&& !p.host_path.contains(':')
    &&& !p.container_path.contains(':')
    &&& p.pattern_type == classify(p.host_path)
}

/// `split_on` yields at least one field.
pub proof fn lemma_split_nonempty(s: Seq<char>, sep: char)
    ensures
        split_on(s, sep).len() >= 1,
    decreases s.len(),
{
    if s.len() != 0 {
        lemma_split_nonempty(s.drop_last(), sep);
    }
}

/// No field of `split_on` holds the separator.
pub proof fn lemma_split_fields_clean(s: Seq<char>, sep: char)
    ensures
        forall|k: int| 0 <= k < split_on(s, sep).len() ==> !(#[trigger] split_on(s, sep)[k]).contains(sep),
    decreases s.len(),
{
    if s.len() != 0 {
        lemma_split_fields_clean(s.drop_last(), sep);
        lemma_split_nonempty(s.drop_last(), sep);
        let before = split_on(s.drop_last(), sep);
        if s.last() != sep {
            let grown = before.last().push(s.last());
            assert forall|k: int| 0 <= k < split_on(s, sep).len() implies !(#[trigger] split_on(
                s,
                sep,
            )[k]).contains(sep) by {
                if k == before.len() - 1 {
                    assert(split_on(s, sep)[k] == grown);
                    assert(!before.last().contains(sep));
                    if grown.contains(sep) {
                        let i = choose|i: int| 0 <= i < grown.len() && grown[i] == sep;
                        assert(i < before.last().len());
                        assert(before.last()[i] == sep);
                    }
                } else {
                    assert(split_on(s, sep)[k] == before[k]);
                }
            }
        } else {
            assert forall|k: int| 0 <= k < split_on(s, sep).len() implies !(#[trigger] split_on(
                s,
                sep,
            )[k]).contains(sep) by {
                if k < before.len() {
                    assert(split_on(s, sep)[k] == before[k]);
                }
            }
        }
    }
}

/// A text without the separator is one field.
pub proof fn lemma_split_single(s: Seq<char>, sep: char)
    requires
        !s.contains(sep),
    ensures
        split_on(s, sep) == seq![s],
    decreases s.len(),
{
    if s.len() == 0 {
        assert(s =~= Seq::<char>::empty());
    } else {
        let front = s.drop_last();
        assert(s[s.len() - 1] == s.last());
        assert forall|i: int| 0 <= i < front.len() implies front[i] != sep by {
            assert(s[i] == front[i]);
        }
        lemma_split_single(front, sep);
        assert(front.push(s.last()) =~= s);
        assert(split_on(s, sep) =~= seq![s]);
    }
}

/// A separator followed by a text without one adds that text as a field.
pub proof fn lemma_split_append(a: Seq<char>, b: Seq<char>, sep: char)
    requires
        !b.contains(sep),
    ensures
        split_on(a + seq![sep] + b, sep) == split_on(a, sep).push(b),
    decreases b.len(),
{
    let whole = a + seq![sep] + b;
    if b.len() == 0 {
        assert(whole.last() == sep);
        assert(whole.drop_last() =~= a);
        assert(b =~= Seq::<char>::empty());
    } else {
        let front = b.drop_last();
        assert(b[b.len() - 1] == b.last());
        assert forall|i: int| 0 <= i < front.len() implies front[i] != sep by {
            assert(b[i] == front[i]);
        }
        lemma_split_append(a, front, sep);
        assert(whole.last() == b.last());
        assert(whole.drop_last() =~= a + seq![sep] + front);
        assert(front.push(b.last()) =~= b);
        let before = split_on(a, sep).push(front);
        assert(before.drop_last() =~= split_on(a, sep));
        assert(split_on(whole, sep) =~= split_on(a, sep).push(b));
    }
}

/// Parsing the shorthand of a canonical pattern gives the pattern back.
pub proof fn lemma_parse_render(p: PatternView)
    requires
        is_canonical(p),
    ensures
        parse_pattern(render_pattern(p)) == Ok::<PatternView, ParseError>(p),
{
    let mode = read_only_mode();
    lemma_split_single(p.host_path, ':');
    lemma_split_append(p.host_path, p.container_path, ':');
    let base = p.host_path + seq![':'] + p.container_path;
    assert(split_on(base, ':') =~= seq![p.host_path, p.container_path]);
    if p.read_only {
        assert(!mode.contains(':')) by {
            if mode.contains(':') {
                let i = choose|i: int| 0 <= i < mode.len() && mode[i] == ':';
                assert(mode[0] == 'r' && mode[1] == 'o');
            }
        }
        lemma_split_append(base, mode, ':');
        assert(split_on(render_pattern(p), ':') =~= seq![p.host_path, p.container_path, mode]);
        assert(mode.len() == 2);
    }
}

/// Cuts `v` at every `:`.
pub fn split_colon(v: &str) -> (parts: Vec<String>)
    ensures
        views(parts@) == split_on(v@, ':'),
{
    let chars = chars_of(v);
    let n = chars.len();
    let mut parts: Vec<String> = Vec::new();
    let mut start: usize = 0;
    let mut i: usize = 0;
    assert(v@.take(0) =~= Seq::<char>::empty());
    assert(views(parts@).push(v@.subrange(0, 0)) =~= seq![Seq::<char>::empty()]);
    while i < n
        invariant
            chars@ == v@,
            n == chars.len(),
            start <= i <= n,
            split_on(v@.take(i as int), ':') == views(parts@).push(
                v@.subrange(start as int, i as int),
            ),
        decreases n - i,
    {
        let ghost before = split_on(v@.take(i as int), ':');
        let ghost old_parts = views(parts@);
        proof {
            let next = v@.take(i + 1);
            assert(next.drop_last() =~= v@.take(i as int));
            assert(next.last() == v@[i as int]);
            assert(before.drop_last() =~= old_parts);
            assert(before.last() == v@.subrange(start as int, i as int));
        }
        if chars[i] == ':' {
            let field = v.substring_char(start, i).to_owned();
            parts.push(field);
            start = i + 1;
            proof {
                assert(views(parts@) =~= before);
                assert(v@.subrange(start as int, i + 1) =~= Seq::<char>::empty());
            }
        } else {
            proof {
                assert(v@.subrange(start as int, i as int).push(v@[i as int]) =~= v@.subrange(
                    start as int,
                    i + 1,
                ));
            }
        }
        i += 1;
    }
    assert(v@.take(n as int) =~= v@);
    let field = v.substring_char(start, n).to_owned();
    parts.push(field);
    proof {
        assert(views(parts@) =~= split_on(v@, ':'));
    }
    parts
}

/// Whether `c` occurs in `s`.
pub fn has_char(s: &str, c: char) -> (r: bool)
    ensures
        r == s@.contains(c),
{
    let chars = chars_of(s);
    let mut i: usize = 0;
    while i < chars.len()
        invariant
            chars@ == s@,
            i <= chars.len(),
            forall|k: int| 0 <= k < i ==> s@[k] != c,
        decreases chars.len() - i,
    {
        if chars[i] == c {
            return true;
        }
        i += 1;
    }
    false
}

/// The kind of reference that `host_path` stands for.
pub fn classify_host(host_path: &str) -> (kind: PatternType)
    ensures
        kind == classify(host_path@),
{
    if host_path.is_empty() {
        PatternType::Anonymous
    } else if !has_char(host_path, '/') {
        PatternType::Named
    } else {
        PatternType::BindMount
    }
}

/// Parses a volume shorthand.
///
/// Succeeds exactly on a text of one to three fields whose third field, if
/// there is one, is empty or `ro`.
pub fn string_to_pattern(v: &str) -> (r: Result<VolumePattern, ParseError>)
    ensures
        match r {
            Ok(p) => parse_pattern(v@) == Ok::<PatternView, ParseError>(p@),
            Err(e) => parse_pattern(v@) == Err::<PatternView, ParseError>(e),
        },
        split_on(v@, ':').len() >= 4 <==> r == Err::<VolumePattern, ParseError>(ParseError::Syntax),
        r is Ok ==> {
            let p = r->Ok_0;
            &&& p.host_path@.len() == 0 <==> p.pattern_type == PatternType::Anonymous
            &&& p.host_path@.len() != 0 && !p.host_path@.contains('/') <==> p.pattern_type
                == PatternType::Named
            &&& p.host_path@.contains('/') <==> p.pattern_type == PatternType::BindMount
        },
        split_on(v@, ':').len() == 3 ==> {
            let mode = split_on(v@, ':')[2];
            &&& mode == read_only_mode() ==> r is Ok && r->Ok_0.read_only
            &&& mode.len() == 0 ==> r is Ok && !r->Ok_0.read_only
            &&& mode != read_only_mode() && mode.len() != 0 ==> r == Err::<
                VolumePattern,
                ParseError,
            >(ParseError::Mode)
        },
        split_on(v@, ':').len() < 3 ==> r is Ok && !r->Ok_0.read_only,
        r is Ok ==> is_canonical(r->Ok_0@),
{
    let mut parts = split_colon(v);
    proof {
        lemma_split_nonempty(v@, ':');
        lemma_split_fields_clean(v@, ':');
        assert(!Seq::<char>::empty().contains(':'));
        assert(views(parts@).len() == parts@.len());
        assert(forall|k: int| 0 <= k < parts@.len() ==> views(parts@)[k] == parts@[k]@);
    }
    let count = parts.len();
    if count > 3 {
        return Err(ParseError::Syntax);
    }
    let mode = if count == 3 {
        parts.pop().unwrap()
    } else {
        String::new()
    };
    let container_path = parts.pop().unwrap();
    let host_path = if count == 1 {
        String::new()
    } else {
        parts.pop().unwrap()
    };
    let marked = !mode.as_str().is_empty();
    if marked {
        let mode_chars = chars_of(mode.as_str());
        let is_ro = mode_chars.len() == 2 && mode_chars[0] == 'r' && mode_chars[1] == 'o';
        proof {
            if is_ro {
                assert(mode@ =~= read_only_mode());
            }
        }
        if !is_ro {
            return Err(ParseError::Mode);
        }
    }
    let pattern_type = classify_host(host_path.as_str());
    proof {
        assert(host_path@.len() == 0 ==> !host_path@.contains('/'));
    }
    Ok(VolumePattern { host_path, container_path, read_only: marked, pattern_type })
}

} // verus!
