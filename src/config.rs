use vstd::prelude::*;
use vstd::std_specs::iter::IteratorSpec;
use vstd::string::{StrSliceExecFns, StringExecFns};

verus! {

/// One section of a node configuration file: its name (`None` for the
/// entries before the first header) and its `key=value` entries in order.
#[derive(Debug, PartialEq, Eq)]
pub struct ConfigSection {
    pub name: Option<String>,
    pub entries: Vec<(String, String)>,
}

/// Text of entries, one `key=value` line each.
pub open spec fn entries_text(entries: Seq<(String, String)>) -> Seq<char>
    decreases entries.len(),
{
    if entries.len() == 0 {
        Seq::empty()
    } else {
        entries_text(entries.drop_last()) + entries.last().0@ + "="@ + entries.last().1@ + "\n"@
    }
}

/// Text of a section: its `[name]` header line, if named, then its entries.
pub open spec fn section_text(s: ConfigSection) -> Seq<char> {
    match s.name {
        Some(n) => "["@ + n@ + "]\n"@ + entries_text(s.entries@),
        None => entries_text(s.entries@),
    }
}

/// Flattened text of a configuration: its sections' texts in order.
pub open spec fn config_text(sections: Seq<ConfigSection>) -> Seq<char>
    decreases sections.len(),
{
    if sections.len() == 0 {
        Seq::empty()
    } else {
        config_text(sections.drop_last()) + section_text(sections.last())
    }
}

fn append_entries(out: &mut String, entries: &Vec<(String, String)>)
    ensures
        final(out)@ == old(out)@ + entries_text(entries@),
{
    let mut i: usize = 0;
    while i < entries.len()
        invariant
            i <= entries@.len(),
            out@ == old(out)@ + entries_text(entries@.subrange(0, i as int)),
        decreases entries@.len() - i,
    {
        out.append(entries[i].0.as_str());
        out.append("=");
        out.append(entries[i].1.as_str());
        out.append("\n");
        assert(entries@.subrange(0, i + 1).drop_last() =~= entries@.subrange(0, i as int));
        i = i + 1;
    }
    assert(entries@.subrange(0, i as int) =~= entries@);
}

/// The flattened text form of a configuration, as broadcast to every node.
pub fn dump_bitcoin_conf(sections: &Vec<ConfigSection>) -> (r: String)
    ensures
        r@ == config_text(sections@),
{
    let mut out = String::new();
    let mut i: usize = 0;
    while i < sections.len()
        invariant
            i <= sections@.len(),
            out@ == config_text(sections@.subrange(0, i as int)),
        decreases sections@.len() - i,
    {
        let s = &sections[i];
        let ghost before = out@;
        match &s.name {
            Some(n) => {
                out.append("[");
                out.append(n.as_str());
                out.append("]\n");
            },
            None => {},
        }
        append_entries(&mut out, &s.entries);
        assert(sections@.subrange(0, i + 1).drop_last() =~= sections@.subrange(0, i as int));
        assert(out@ =~= before + section_text(sections@[i as int]));
        i = i + 1;
    }
    assert(sections@.subrange(0, i as int) =~= sections@);
    out
}

/// A section as plain values: its name and its `(key, value)` entries.
pub type SectionView = (Option<Seq<char>>, Seq<(Seq<char>, Seq<char>)>);

pub open spec fn section_view(s: ConfigSection) -> SectionView {
    (
        match s.name {
            Some(n) => Some(n@),
            None => None,
        },
        s.entries@.map_values(|e: (String, String)| (e.0@, e.1@)),
    )
}

pub open spec fn sections_view(v: Seq<ConfigSection>) -> Seq<SectionView> {
    v.map_values(|s: ConfigSection| section_view(s))
}

/// Position of the first `c` in `s` at or after `from`, or `s.len()`.
pub open spec fn find_from(s: Seq<char>, c: char, from: int) -> int
    decreases s.len() - from,
{
    if from < 0 || from >= s.len() {
        s.len() as int
    } else if s[from] == c {
        from
    } else {
        find_from(s, c, from + 1)
    }
}

/// A line starting with `#` or `;` is a comment.
pub open spec fn is_comment(line: Seq<char>) -> bool {
    line.len() > 0 && (line[0] == '#' || line[0] == ';')
}

/// A line `[name]` opens the section `name`.
pub open spec fn is_header(line: Seq<char>) -> bool {
    line.len() >= 2 && line[0] == '[' && line.last() == ']'
}

/// The sections `acc` after reading one more line: a header opens a new
/// section; a line with `=` adds the entry split at its first `=` to the
/// last section (or to a new unnamed one); anything else is skipped.
pub open spec fn apply_line(acc: Seq<SectionView>, line: Seq<char>) -> Seq<SectionView> {
    let eq = find_from(line, '=', 0);
    if is_comment(line) {
        acc
    } else if is_header(line) {
        acc.push((Some(line.subrange(1, line.len() - 1)), Seq::empty()))
    } else if eq < line.len() {
        let entry = (line.subrange(0, eq), line.subrange(eq + 1, line.len() as int));
        if acc.len() == 0 {
            seq![(None, seq![entry])]
        } else {
            acc.update(acc.len() - 1, (acc.last().0, acc.last().1.push(entry)))
        }
    } else {
        acc
    }
}

/// Reads the lines of `s` from position `pos` on, the current line having
/// started at `start`, into the sections `acc`.
pub open spec fn parse_lines(s: Seq<char>, pos: int, start: int, acc: Seq<SectionView>) -> Seq<SectionView>
    decreases s.len() - pos,
{
    if pos >= s.len() {
        apply_line(acc, s.subrange(start, s.len() as int))
    } else if s[pos] == '\n' {
        parse_lines(s, pos + 1, pos + 1, apply_line(acc, s.subrange(start, pos)))
    } else {
        parse_lines(s, pos + 1, start, acc)
    }
}

/// The sections of a configuration text, read line by line.
pub open spec fn parse_config(s: Seq<char>) -> Seq<SectionView> {
    parse_lines(s, 0, 0, Seq::empty())
}

proof fn lemma_find_from(s: Seq<char>, c: char, from: int, m: int)
    requires
        0 <= from <= m <= s.len(),
        forall|j: int| from <= j < m ==> s[j] != c,
        m == s.len() || s[m] == c,
    ensures
        find_from(s, c, from) == m,
    decreases m - from,
{
    if from < m {
        lemma_find_from(s, c, from + 1, m);
    }
}

fn chars_of(text: &str) -> (r: Vec<char>)
    ensures
        r@ == text@,
{
    let mut it = text.chars();
    let mut r: Vec<char> = Vec::new();
    loop
        invariant
            r@ + it.remaining() == text@,
            it.decrease() is Some,
        ensures
            r@ == text@,
        decreases it.decrease()->0,
    {
        match it.next() {
            Some(c) => {
                r.push(c);
                assert(r@ + it.remaining() =~= text@);
            },
            None => {
                assert(r@ =~= text@);
                break;
            },
        }
    }
    r
}

fn read_line(sections: &mut Vec<ConfigSection>, text: &str, chars: &Vec<char>, a: usize, b: usize)
    requires
        chars@ == text@,
        a <= b <= chars@.len(),
    ensures
        sections_view(final(sections)@) == apply_line(sections_view(old(sections)@), text@.subrange(a as int, b as int)),
{
    let ghost line = text@.subrange(a as int, b as int);
    let ghost acc = sections_view(sections@);
    if b > a && (chars[a] == '#' || chars[a] == ';') {
        return;
    }
    if b - a >= 2 && chars[a] == '[' && chars[b - 1] == ']' {
        let name = text.substring_char(a + 1, b - 1).to_owned();
        sections.push(ConfigSection { name: Some(name), entries: Vec::new() });
        assert(line.subrange(1, line.len() - 1) =~= text@.subrange(a + 1, b - 1));
        assert(sections_view(sections@)[acc.len() as int].1 =~= Seq::<(Seq<char>, Seq<char>)>::empty());
        assert(sections_view(sections@) =~= acc.push((Some(line.subrange(1, line.len() - 1)), Seq::empty())));
        return;
    }
    let mut k: usize = a;
    while k < b && chars[k] != '='
        invariant
            a <= k <= b,
            b <= chars@.len(),
            forall|j: int| a <= j < k ==> chars@[j] != '=',
        decreases b - k,
    {
        k = k + 1;
    }
    proof {
        lemma_find_from(line, '=', 0, k - a);
    }
    if k == b {
        return;
    }
    let key = text.substring_char(a, k).to_owned();
    let value = text.substring_char(k + 1, b).to_owned();
    let ghost entry = (line.subrange(0, k - a), line.subrange(k - a + 1, line.len() as int));
    assert(key@ =~= entry.0);
    assert(value@ =~= entry.1);
    if sections.len() == 0 {
        let mut entries: Vec<(String, String)> = Vec::new();
        entries.push((key, value));
        sections.push(ConfigSection { name: None, entries });
        assert(sections_view(sections@)[0].1 =~= seq![entry]);
        assert(sections_view(sections@) =~= seq![(None, seq![entry])]);
    } else {
        let last = sections.len() - 1;
        sections[last].entries.push((key, value));
        assert(sections_view(sections@)[last as int].1 =~= acc.last().1.push(entry));
        assert(sections_view(sections@) =~= acc.update(acc.len() - 1, (acc.last().0, acc.last().1.push(entry))));
    }
}

/// Reads a node configuration text: `[name]` lines open sections,
/// `key=value` lines (split at the first `=`) add entries to the current
/// section, entries before any header form an unnamed section, and lines
/// starting with `#` or `;` or holding no `=` are skipped.
pub fn parse_bitcoin_conf(text: &str) -> (r: Vec<ConfigSection>)
    ensures
        sections_view(r@) == parse_config(text@),
{
    let chars = chars_of(text);
    let mut sections: Vec<ConfigSection> = Vec::new();
    let mut start: usize = 0;
    let mut pos: usize = 0;
    assert(sections_view(sections@) =~= Seq::<SectionView>::empty());
    while pos < chars.len()
        invariant
            chars@ == text@,
            start <= pos <= chars@.len(),
            parse_lines(text@, pos as int, start as int, sections_view(sections@)) == parse_config(text@),
        decreases chars@.len() - pos,
    {
        if chars[pos] == '\n' {
            read_line(&mut sections, text, &chars, start, pos);
            start = pos + 1;
        }
        pos = pos + 1;
    }
    read_line(&mut sections, text, &chars, start, pos);
    sections
}

} // verus!
