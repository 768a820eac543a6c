//! Writing a configuration and reading the text back gives the configuration again.

use vstd::prelude::*;

use crate::config::load::{
    comment_start, escaped_char, initial_parse, SectionModel, lemma_escape_round_trip, spec_apply_entry, spec_escape,
    spec_parse_header, spec_parse_line, spec_parse_lines, spec_parse_string_value, spec_strip_comment, quoted_line,
    spec_apply_default, spec_apply_host, opt_text_line, opt_port_line, opt_prediction_line, host_section, host_sections, spec_serialize, spec_parse_config, config_model, first_missing_target, ConfigModel, ConfigFault, ParseModel,
};
use crate::config::alias::{alias_char, spec_sanitize_server_path, valid_alias_name, valid_ssh_target};
use crate::config::hosts::{chars_less, find_name, insert_position, lemma_chars_less_irreflexive, lemma_find_name, lemma_sorted_find, lookup, names_sorted, spec_insert, HostEntryModel};
use crate::config::model::{AppConfig, default_defaults, empty_host, CONFIG_VERSION, DefaultsModel, HostConfigModel, prediction_text, spec_parse_port, spec_parse_port_spec, spec_parse_prediction, spec_port_text, PortSpec, PredictionMode};
use crate::text::{decimal, digit_char, digits_value, is_digit, lower_all, find_char, parse_unsigned, unsigned_digits, is_space, leading_spaces, lemma_find_char, lines, trailing_spaces, trim, without_cr};

verus! {

// ---------------------------------------------------------------------------
// Lines of concatenated text
// ---------------------------------------------------------------------------

/// `find_char` finds the first occurrence.
proof fn lemma_find_char_at(s: Seq<char>, c: char, i: int)
    requires
        0 <= i < s.len(),
        s[i] == c,
        forall|j: int| 0 <= j < i ==> s[j] != c,
    ensures
        find_char(s, c) == Some(i),
{
    lemma_find_char(s, c);
    match find_char(s, c) {
        Some(k) => {
            if k < i {
                assert(s[k] != c);
            } else if k > i {
                assert(s[i] != c);
            }
        },
        None => {
            assert(s[i] != c);
        },
    }
}

/// The lines of text that ends with a newline, followed by more text, are its lines and then
/// those of the rest.
pub proof fn lemma_lines_append(a: Seq<char>, b: Seq<char>)
    requires
        a.len() == 0 || a.last() == '\n',
    ensures
        lines(a + b) == lines(a) + lines(b),
    decreases a.len(),
{
    if a.len() == 0 {
        assert(a + b =~= b);
        assert(lines(a) =~= Seq::<Seq<char>>::empty());
        assert(lines(a) + lines(b) =~= lines(b));
    } else {
        lemma_find_char(a, '\n');
        let i = find_char(a, '\n')->Some_0;
        assert(a[a.len() - 1] == '\n');
        assert(find_char(a, '\n') is Some);
        let ab = a + b;
        assert forall|j: int| 0 <= j < i implies ab[j] != '\n' by {
            assert(ab[j] == a[j]);
        }
        assert(ab[i] == a[i]);
        lemma_find_char_at(ab, '\n', i);
        assert(ab.take(i) =~= a.take(i));
        assert(ab.skip(i + 1) =~= a.skip(i + 1) + b);
        let rest = a.skip(i + 1);
        if rest.len() > 0 {
            assert(rest.last() == a.last());
        }
        lemma_lines_append(rest, b);
        assert(lines(ab) == seq![without_cr(a.take(i))] + lines(rest + b));
        assert(lines(a) == seq![without_cr(a.take(i))] + lines(rest));
        assert(lines(ab) =~= lines(a) + lines(b));
    }
}

/// One line and its newline make one line.
pub proof fn lemma_lines_single(x: Seq<char>)
    requires
        forall|j: int| 0 <= j < x.len() ==> x[j] != '\n',
        x.len() == 0 || x.last() != '\r',
    ensures
        lines(x + seq!['\n']) == seq![x],
{
    let s = x + seq!['\n'];
    assert forall|j: int| 0 <= j < x.len() implies s[j] != '\n' by {
        assert(s[j] == x[j]);
    }
    lemma_find_char_at(s, '\n', x.len() as int);
    assert(s.take(x.len() as int) =~= x);
    assert(s.skip(x.len() as int + 1) =~= Seq::<char>::empty());
    assert(without_cr(x) == x);
    assert(lines(Seq::<char>::empty()) =~= Seq::<Seq<char>>::empty());
    assert(lines(s) == seq![without_cr(s.take(x.len() as int))] + lines(s.skip(x.len() as int + 1)));
    assert(lines(s) =~= seq![x]);
}

// ---------------------------------------------------------------------------
// Running the parser over lines
// ---------------------------------------------------------------------------

/// The parser, from state `st`, over the lines `ls`, the first of them numbered `n`.
pub open spec fn parse_run(st: ParseModel, ls: Seq<Seq<char>>, n: nat) -> Result<ParseModel, ConfigFault>
    decreases ls.len(),
{
    if ls.len() == 0 {
        Ok(st)
    } else {
        match spec_parse_line(st, ls[0], n) {
            Err(f) => Err(f),
            Ok(s2) => parse_run(s2, ls.drop_first(), n + 1),
        }
    }
}

proof fn lemma_parse_lines_prefix(ls: Seq<Seq<char>>, k: nat)
    requires
        k <= ls.len(),
    ensures
        parse_run(initial_parse(), ls, 1) == match spec_parse_lines(ls, k) {
            Ok(st) => parse_run(st, ls.skip(k as int), k + 1),
            Err(f) => Err(f),
        },
    decreases k,
{
    if k == 0 {
        assert(ls.skip(0) =~= ls);
    } else {
        lemma_parse_lines_prefix(ls, (k - 1) as nat);
        match spec_parse_lines(ls, (k - 1) as nat) {
            Ok(st) => {
                let rest = ls.skip(k - 1);
                assert(rest[0] == ls[k - 1]);
                assert(rest.drop_first() =~= ls.skip(k as int));
            },
            Err(f) => {},
        }
    }
}

/// The parser over all lines is the run from the initial state.
pub proof fn lemma_parse_lines_run(ls: Seq<Seq<char>>)
    ensures
        spec_parse_lines(ls, ls.len()) == parse_run(initial_parse(), ls, 1),
{
    lemma_parse_lines_prefix(ls, ls.len());
    assert(ls.skip(ls.len() as int) =~= Seq::<Seq<char>>::empty());
}

/// Running over two runs of lines is running over the first, then over the second.
pub proof fn lemma_parse_run_append(st: ParseModel, a: Seq<Seq<char>>, b: Seq<Seq<char>>, n: nat)
    ensures
        parse_run(st, a + b, n) == match parse_run(st, a, n) {
            Ok(s) => parse_run(s, b, n + a.len()),
            Err(f) => Err(f),
        },
    decreases a.len(),
{
    if a.len() == 0 {
        assert(a + b =~= b);
    } else {
        assert((a + b)[0] == a[0]);
        assert((a + b).drop_first() =~= a.drop_first() + b);
        match spec_parse_line(st, a[0], n) {
            Ok(s2) => {
                lemma_parse_run_append(s2, a.drop_first(), b, n + 1);
            },
            Err(f) => {},
        }
    }
}

// ---------------------------------------------------------------------------
// Single lines
// ---------------------------------------------------------------------------

/// A setting's key: ASCII lower-case letters and underscores, starting with a letter.
pub open spec fn plain_key(key: Seq<char>) -> bool {
    &&& key.len() > 0
    &&& 'a' <= key[0] <= 'z'
    &&& forall|i: int| 0 <= i < key.len() ==> ('a' <= #[trigger] key[i] <= 'z' || key[i] == '_')
}

/// The line `key = "text"`.
pub open spec fn entry_line(key: Seq<char>, text: Seq<char>) -> Seq<char> {
    key + seq![' ', '=', ' ', '"'] + text + seq!['"']
}

proof fn lemma_scan_plain(line: Seq<char>, i: int, j: int)
    requires
        0 <= i <= j <= line.len(),
        forall|k: int| i <= k < j ==> line[k] != '"' && line[k] != '#',
    ensures
        comment_start(line, i, false, false) == comment_start(line, j, false, false),
    decreases j - i,
{
    if i < j {
        lemma_scan_plain(line, i + 1, j);
    }
}

proof fn lemma_scan_escaped(line: Seq<char>, i: int, t: Seq<char>)
    requires
        0 <= i,
        i + spec_escape(t).len() <= line.len(),
        line.subrange(i, i + spec_escape(t).len()) == spec_escape(t),
    ensures
        comment_start(line, i, false, true) == comment_start(line, i + spec_escape(t).len(), false, true),
    decreases t.len(),
{
    if t.len() > 0 {
        let e = spec_escape(t);
        let c = t[0];
        let first = escaped_char(c);
        let rest = spec_escape(t.drop_first());
        assert(e == first + rest);
        assert(line[i] == e[0]);
        if c == '"' || c == '\\' || c == '\n' || c == '\r' || c == '\t' {
            assert(first.len() == 2);
            assert(e[0] == '\\');
            assert(comment_start(line, i, false, true) == comment_start(line, i + 1, true, true));
            assert(comment_start(line, i + 1, true, true) == comment_start(line, i + 2, false, true));
        } else {
            assert(first.len() == 1);
            assert(e[0] == c);
            assert(comment_start(line, i, false, true) == comment_start(line, i + 1, false, true));
        }
        assert(line.subrange(i + first.len(), i + first.len() + rest.len()) =~= rest) by {
            assert forall|k: int| 0 <= k < rest.len() implies line.subrange(i + first.len(), i + first.len() + rest.len())[k]
                == rest[k] by {
                assert(line.subrange(i, i + e.len())[first.len() + k] == e[first.len() + k]);
            }
        }
        lemma_scan_escaped(line, i + first.len(), t.drop_first());
    }
}

/// How an entry line of the file is read: the key and the unescaped text.
pub proof fn lemma_entry_line(st: ParseModel, key: Seq<char>, t: Seq<char>, n: nat)
    requires
        plain_key(key),
    ensures
        spec_parse_line(st, entry_line(key, spec_escape(t)), n) == spec_apply_entry(st, key, t, n),
{
    let e = spec_escape(t);
    let line = entry_line(key, e);
    let k = key.len() as int;
    assert(line.len() == k + 5 + e.len());
    assert forall|j: int| 0 <= j < k implies line[j] == key[j] by {}
    // The comment scan finds no comment.
    assert forall|j: int| 0 <= j < k + 3 implies line[j] != '"' && line[j] != '#' by {
        if j < k {
            assert(line[j] == key[j]);
        }
    }
    lemma_scan_plain(line, 0, k + 3);
    assert(line[k + 3] == '"');
    assert(comment_start(line, k + 3, false, false) == comment_start(line, k + 4, false, true));
    assert(line.subrange(k + 4, k + 4 + e.len()) =~= e);
    lemma_scan_escaped(line, k + 4, t);
    assert(line[k + 4 + e.len()] == '"');
    assert(comment_start(line, k + 4 + e.len(), false, true) == comment_start(line, k + 5 + e.len(), false, false));
    assert(comment_start(line, k + 5 + e.len(), false, false) is None);
    assert(spec_strip_comment(line) == line);
    // Trimming leaves it alone.
    assert(line[0] == key[0]);
    assert(!is_space(line[0]));
    assert(leading_spaces(line) == 0);
    assert(line.skip(0) =~= line);
    assert(line.last() == '"');
    assert(trailing_spaces(line) == 0);
    assert(line.take(line.len() as int) =~= line);
    assert(trim(line) == line);
    // The first `=` follows the key and a space.
    assert forall|j: int| 0 <= j < k + 1 implies line[j] != '=' by {
        if j < k {
            assert(line[j] == key[j]);
        }
    }
    assert(line[k + 1] == '=');
    lemma_find_char_at(line, '=', k + 1);
    // The key.
    let left = line.take(k + 1);
    assert(left =~= key + seq![' ']);
    assert(leading_spaces(left) == 0);
    assert(left.skip(0) =~= left);
    assert(left.last() == ' ');
    assert(left.drop_last() =~= key);
    assert(key.last() == key[k - 1]);
    assert(trailing_spaces(key) == 0);
    assert(trailing_spaces(left) == 1);
    assert(left.take(left.len() - 1) =~= key);
    assert(trim(left) == key);
    // The value.
    let right = line.skip(k + 2);
    let q = seq!['"'] + e + seq!['"'];
    assert(right =~= seq![' '] + q);
    assert(right.drop_first() =~= q);
    assert(leading_spaces(q) == 0);
    assert(leading_spaces(right) == 1);
    assert(right.skip(1) =~= q);
    assert(q.last() == '"');
    assert(trailing_spaces(q) == 0);
    assert(q.take(q.len() as int) =~= q);
    assert(trim(right) == q);
    assert(q.subrange(1, q.len() - 1) =~= e);
    lemma_escape_round_trip(t);
    assert(spec_parse_string_value(q) == Ok::<Seq<char>, crate::config::load::ValueFault>(t));
}

/// An empty line changes nothing.
pub proof fn lemma_empty_line(st: ParseModel, n: nat)
    ensures
        spec_parse_line(st, Seq::<char>::empty(), n) == Ok::<ParseModel, ConfigFault>(st),
{
    let e = Seq::<char>::empty();
    assert(spec_strip_comment(e) =~= e);
    assert(leading_spaces(e) == 0);
    assert(e.skip(0) =~= e);
    assert(trailing_spaces(e) == 0);
    assert(trim(e) =~= e);
}

/// The line `[name]`.
pub open spec fn header_line(name: Seq<char>) -> Seq<char> {
    seq!['['] + name + seq![']']
}

/// A header line is read as a header.
pub proof fn lemma_header_line(st: ParseModel, name: Seq<char>, n: nat)
    requires
        forall|j: int| 0 <= j < name.len() ==> name[j] != '"' && name[j] != '#',
    ensures
        spec_parse_line(st, header_line(name), n) == spec_parse_header(st, header_line(name), n),
        header_line(name).subrange(1, header_line(name).len() - 1) == name,
        header_line(name).last() == ']',
{
    let line = header_line(name);
    assert forall|j: int| 0 <= j < line.len() implies line[j] != '"' && line[j] != '#' by {
        if 1 <= j < line.len() - 1 {
            assert(line[j] == name[j - 1]);
        }
    }
    lemma_scan_plain(line, 0, line.len() as int);
    assert(spec_strip_comment(line) == line);
    assert(line[0] == '[');
    assert(leading_spaces(line) == 0);
    assert(line.skip(0) =~= line);
    assert(line.last() == ']');
    assert(trailing_spaces(line) == 0);
    assert(line.take(line.len() as int) =~= line);
    assert(trim(line) == line);
    assert(line.subrange(1, line.len() - 1) =~= name);
}

/// The line `version = 1`.
pub open spec fn version_line() -> Seq<char> {
    "version = "@ + decimal(1)
}

/// The version line sets the version, in the root section.
pub proof fn lemma_version_line(st: ParseModel, n: nat)
    requires
        st.section == SectionModel::Root,
    ensures
        spec_parse_line(st, version_line(), n) == Ok::<ParseModel, ConfigFault>(ParseModel { version: 1, ..st }),
{
    reveal_strlit("version = ");
    reveal_strlit("version");
    assert(decimal(1) == seq![((1nat + 48) as u8) as char]);
    assert(((1nat + 48) as u8) as char == '1');
    let line = version_line();
    assert(line =~= seq!['v', 'e', 'r', 's', 'i', 'o', 'n', ' ', '=', ' ', '1']);
    lemma_scan_plain(line, 0, line.len() as int);
    assert(spec_strip_comment(line) == line);
    assert(leading_spaces(line) == 0);
    assert(line.skip(0) =~= line);
    assert(trailing_spaces(line) == 0);
    assert(line.take(line.len() as int) =~= line);
    assert(trim(line) == line);
    lemma_find_char_at(line, '=', 8);
    let left = line.take(8);
    assert(leading_spaces(left) == 0);
    assert(left.skip(0) =~= left);
    assert(left.drop_last() =~= "version"@);
    assert(trailing_spaces(left.drop_last()) == 0);
    assert(trailing_spaces(left) == 1);
    assert(left.take(7) =~= "version"@);
    assert(trim(left) == "version"@);
    let right = line.skip(9);
    assert(right =~= seq![' ', '1']);
    assert(right.drop_first() =~= seq!['1']);
    assert(leading_spaces(seq!['1']) == 0);
    assert(leading_spaces(right) == 1);
    assert(right.skip(1) =~= seq!['1']);
    assert(trailing_spaces(seq!['1']) == 0);
    assert(seq!['1'].take(1) =~= seq!['1']);
    assert(trim(right) == seq!['1']);
    assert(spec_parse_string_value(seq!['1']) == Ok::<Seq<char>, crate::config::load::ValueFault>(seq!['1']));
    assert(unsigned_digits(seq!['1']) == seq!['1']);
    assert(seq!['1'].drop_last() =~= Seq::<char>::empty());
    assert(digits_value(Seq::<char>::empty()) == 0);
    assert(seq!['1'].last() == '1');
    assert(('1' as u32) == 49);
    assert(digits_value(seq!['1']) == digits_value(seq!['1'].drop_last()) * 10 + ((seq!['1'].last() as u32) - 48) as nat);
    assert(digits_value(seq!['1']) == 1);
    assert(parse_unsigned(seq!['1'], 0xffff_ffff) == Some(1nat));
}

// ---------------------------------------------------------------------------
// Reading whole pieces of text
// ---------------------------------------------------------------------------

/// Text that is empty or ends with a newline.
pub open spec fn whole_lines(t: Seq<char>) -> bool {
    t.len() == 0 || t.last() == '\n'
}

/// Reading the text `t` in state `st` gives `st2`, whatever number its first line has.
pub open spec fn reads(t: Seq<char>, st: ParseModel, st2: ParseModel) -> bool {
    &&& whole_lines(t)
    &&& forall|n: nat| #[trigger] parse_run(st, lines(t), n) == Ok::<ParseModel, ConfigFault>(st2)
}

/// Reading one piece of text and then another.
pub proof fn lemma_reads_concat(a: Seq<char>, b: Seq<char>, s1: ParseModel, s2: ParseModel, s3: ParseModel)
    requires
        reads(a, s1, s2),
        reads(b, s2, s3),
    ensures
        reads(a + b, s1, s3),
{
    lemma_lines_append(a, b);
    assert forall|n: nat| #[trigger] parse_run(s1, lines(a + b), n) == Ok::<ParseModel, ConfigFault>(s3) by {
        lemma_parse_run_append(s1, lines(a), lines(b), n);
        assert(parse_run(s1, lines(a), n) == Ok::<ParseModel, ConfigFault>(s2));
        assert(parse_run(s2, lines(b), n + lines(a).len()) == Ok::<ParseModel, ConfigFault>(s3));
    }
    if b.len() == 0 {
        assert(a + b =~= a);
    } else {
        assert((a + b).last() == b.last());
    }
}

/// Reading nothing changes nothing.
pub proof fn lemma_reads_nothing(st: ParseModel)
    ensures
        reads(Seq::<char>::empty(), st, st),
{
    assert forall|n: nat| #[trigger] parse_run(st, lines(Seq::<char>::empty()), n) == Ok::<ParseModel, ConfigFault>(st) by {
        assert(lines(Seq::<char>::empty()) =~= Seq::<Seq<char>>::empty());
    }
}

/// Reading one line and its newline.
pub proof fn lemma_reads_line(x: Seq<char>, st: ParseModel, st2: ParseModel)
    requires
        forall|j: int| 0 <= j < x.len() ==> x[j] != '\n',
        x.len() == 0 || x.last() != '\r',
        forall|n: nat| #[trigger] spec_parse_line(st, x, n) == Ok::<ParseModel, ConfigFault>(st2),
    ensures
        reads(x + seq!['\n'], st, st2),
{
    lemma_lines_single(x);
    assert forall|n: nat| #[trigger] parse_run(st, lines(x + seq!['\n']), n) == Ok::<ParseModel, ConfigFault>(st2) by {
        let ls = seq![x];
        assert(ls[0] == x);
        assert(ls.drop_first() =~= Seq::<Seq<char>>::empty());
        assert(spec_parse_line(st, x, n) == Ok::<ParseModel, ConfigFault>(st2));
        assert(parse_run(st2, Seq::<Seq<char>>::empty(), n + 1) == Ok::<ParseModel, ConfigFault>(st2));
        assert(parse_run(st, ls, n) == parse_run(st2, ls.drop_first(), n + 1));
        assert(lines(x + seq!['\n']) == ls);
    }
    assert((x + seq!['\n']).last() == '\n');
}

/// Escaped text holds no line break.
pub proof fn lemma_escape_one_line(t: Seq<char>)
    ensures
        forall|j: int| 0 <= j < spec_escape(t).len() ==> spec_escape(t)[j] != '\n' && spec_escape(t)[j] != '\r',
    decreases t.len(),
{
    if t.len() > 0 {
        lemma_escape_one_line(t.drop_first());
        let first = escaped_char(t[0]);
        let rest = spec_escape(t.drop_first());
        assert(spec_escape(t) == first + rest);
        assert forall|j: int| 0 <= j < spec_escape(t).len() implies spec_escape(t)[j] != '\n' && spec_escape(t)[j]
            != '\r' by {
            if j >= first.len() {
                assert(spec_escape(t)[j] == rest[j - first.len()]);
            }
        }
    }
}

/// Text without quotes, backslashes, tabs or line breaks is its own escaped form.
pub proof fn lemma_escape_plain(t: Seq<char>)
    requires
        forall|j: int| 0 <= j < t.len() ==> #[trigger] t[j] != '"' && t[j] != '\\' && t[j] != '\n' && t[j] != '\r'
            && t[j] != '\t',
    ensures
        spec_escape(t) == t,
    decreases t.len(),
{
    if t.len() > 0 {
        assert forall|j: int| 0 <= j < t.drop_first().len() implies #[trigger] t.drop_first()[j] != '"'
            && t.drop_first()[j] != '\\' && t.drop_first()[j] != '\n' && t.drop_first()[j] != '\r'
            && t.drop_first()[j] != '\t' by {
            assert(t.drop_first()[j] == t[j + 1]);
        }
        lemma_escape_plain(t.drop_first());
        assert(t[0] != '"' && t[0] != '\\' && t[0] != '\n' && t[0] != '\r' && t[0] != '\t');
        assert(spec_escape(t) =~= t);
    }
}

/// Reading the line `key = "escaped text"` applies the setting.
pub proof fn lemma_reads_entry(key: Seq<char>, t: Seq<char>, st: ParseModel, st2: ParseModel)
    requires
        plain_key(key),
        forall|n: nat| #[trigger] spec_apply_entry(st, key, t, n) == Ok::<ParseModel, ConfigFault>(st2),
    ensures
        reads(quoted_line(key, spec_escape(t)), st, st2),
{
    reveal_strlit(" = \"");
    reveal_strlit("\"\n");
    let e = spec_escape(t);
    let x = entry_line(key, e);
    assert(quoted_line(key, e) =~= x + seq!['\n']);
    lemma_escape_one_line(t);
    assert forall|j: int| 0 <= j < x.len() implies x[j] != '\n' by {
        let k = key.len() as int;
        if j < k {
            assert(x[j] == key[j]);
            assert('a' <= key[j] <= 'z' || key[j] == '_');
        } else if k + 4 <= j < k + 4 + e.len() {
            assert(x[j] == e[j - k - 4]);
        }
    }
    assert forall|n: nat| #[trigger] spec_parse_line(st, x, n) == Ok::<ParseModel, ConfigFault>(st2) by {
        lemma_entry_line(st, key, t, n);
        assert(spec_apply_entry(st, key, t, n) == Ok::<ParseModel, ConfigFault>(st2));
    }
    lemma_reads_line(x, st, st2);
}

// ---------------------------------------------------------------------------
// Numbers, ports and modes read back
// ---------------------------------------------------------------------------

/// The decimal form of a number: digits whose value is the number.
pub proof fn lemma_decimal(n: nat)
    ensures
        decimal(n).len() > 0,
        forall|j: int| 0 <= j < decimal(n).len() ==> #[trigger] is_digit(decimal(n)[j]),
        digits_value(decimal(n)) == n,
    decreases n,
{
    if n < 10 {
        let c = digit_char(n);
        assert((c as u32) == n + 48);
        assert(seq![c].drop_last() =~= Seq::<char>::empty());
        assert(digits_value(Seq::<char>::empty()) == 0);
    } else {
        lemma_decimal(n / 10);
        let d = decimal(n / 10);
        let c = digit_char(n % 10);
        assert((c as u32) == n % 10 + 48);
        assert(decimal(n) == d.push(c));
        assert(d.push(c).drop_last() =~= d);
        assert(forall|j: int| 0 <= j < d.len() ==> d.push(c)[j] == d[j]);
        assert(n == (n / 10) * 10 + n % 10);
    }
}

/// Text that starts and ends with a character other than whitespace is its own trimmed form.
pub proof fn lemma_trim_solid(t: Seq<char>)
    requires
        t.len() > 0,
        !is_space(t[0]),
        !is_space(t.last()),
    ensures
        trim(t) == t,
{
    assert(leading_spaces(t) == 0);
    assert(t.skip(0) =~= t);
    assert(trailing_spaces(t) == 0);
    assert(t.take(t.len() as int) =~= t);
}

/// The decimal form of a number up to `max` parses back to it.
pub proof fn lemma_parse_decimal(n: nat, max: nat)
    requires
        n <= max,
    ensures
        parse_unsigned(decimal(n), max) == Some(n),
        trim(decimal(n)) == decimal(n),
        find_char(decimal(n), ':') is None,
{
    lemma_decimal(n);
    let d = decimal(n);
    assert(is_digit(d[0]));
    assert(unsigned_digits(d) == d);
    assert(is_digit(d[d.len() - 1]));
    lemma_trim_solid(d);
    lemma_find_char(d, ':');
    if let Some(i) = find_char(d, ':') {
        assert(is_digit(d[i]));
    }
}

/// A port spec that a file can hold: no port 0, and a range from its start up to its end.
pub open spec fn valid_port_spec(p: PortSpec) -> bool {
    match p {
        PortSpec::Single(port) => port > 0,
        PortSpec::Range { start, end } => 0 < start <= end,
    }
}

/// The text of a valid port spec parses back to it.
pub proof fn lemma_port_text(p: PortSpec)
    requires
        valid_port_spec(p),
    ensures
        spec_parse_port_spec(spec_port_text(p)) == Some(p),
        spec_escape(spec_port_text(p)) == spec_port_text(p),
{
    reveal_strlit(":");
    match p {
        PortSpec::Single(port) => {
            lemma_parse_decimal(port as nat, 0xffff);
            lemma_decimal(port as nat);
            let d = decimal(port as nat);
            assert(spec_parse_port(d) == Some(port));
            assert forall|j: int| 0 <= j < d.len() implies #[trigger] d[j] != '"' && d[j] != '\\' && d[j] != '\n'
                && d[j] != '\r' && d[j] != '\t' by {
                assert(is_digit(d[j]));
            }
            lemma_escape_plain(d);
        },
        PortSpec::Range { start, end } => {
            lemma_parse_decimal(start as nat, 0xffff);
            lemma_parse_decimal(end as nat, 0xffff);
            lemma_decimal(start as nat);
            lemma_decimal(end as nat);
            let a = decimal(start as nat);
            let b = decimal(end as nat);
            let t = a + ":"@ + b;
            assert(t == spec_port_text(p));
            let i = a.len() as int;
            assert(t[0] == a[0] && is_digit(a[0]));
            assert(t.last() == b[b.len() - 1] && is_digit(b[b.len() - 1]));
            lemma_trim_solid(t);
            assert forall|j: int| 0 <= j < i implies t[j] != ':' by {
                assert(t[j] == a[j] && is_digit(a[j]));
            }
            assert(t[i] == ':');
            lemma_find_char_at(t, ':', i);
            assert(t.take(i) =~= a);
            assert(t.skip(i + 1) =~= b);
            assert(spec_parse_port(a) == Some(start));
            assert(spec_parse_port(b) == Some(end));
            assert forall|j: int| 0 <= j < t.len() implies #[trigger] t[j] != '"' && t[j] != '\\' && t[j] != '\n'
                && t[j] != '\r' && t[j] != '\t' by {
                if j < i {
                    assert(t[j] == a[j] && is_digit(a[j]));
                } else if j > i {
                    assert(t[j] == b[j - i - 1] && is_digit(b[j - i - 1]));
                }
            }
            lemma_escape_plain(t);
        },
    }
}

/// The name of a prediction mode parses back to it.
pub proof fn lemma_prediction_text(p: PredictionMode)
    ensures
        spec_parse_prediction(prediction_text(p)) == Some(p),
        spec_escape(prediction_text(p)) == prediction_text(p),
{
    reveal_strlit("off");
    reveal_strlit("adaptive");
    reveal_strlit("always");
    reveal_strlit("never");
    let t = prediction_text(p);
    assert(t.len() > 0);
    assert forall|j: int| 0 <= j < t.len() implies 'a' <= #[trigger] t[j] <= 'z' by {}
    assert(!is_space(t[0]) && !is_space(t.last()));
    lemma_trim_solid(t);
    assert(lower_all(t) =~= t);
    assert forall|j: int| 0 <= j < t.len() implies #[trigger] t[j] != '"' && t[j] != '\\' && t[j] != '\n' && t[j]
        != '\r' && t[j] != '\t' by {
        assert('a' <= t[j] <= 'z');
    }
    lemma_escape_plain(t);
    assert("off"@ != "adaptive"@) by {
        assert("off"@.len() != "adaptive"@.len());
    }
    assert("off"@ != "always"@) by {
        assert("off"@.len() != "always"@.len());
    }
    assert("off"@ != "never"@) by {
        assert("off"@.len() != "never"@.len());
    }
    assert("adaptive"@ != "always"@) by {
        assert("adaptive"@[1] != "always"@[1]);
    }
    assert("adaptive"@ != "never"@) by {
        assert("adaptive"@.len() != "never"@.len());
    }
    assert("always"@ != "never"@ ) by {
        assert("always"@[0] != "never"@[0]);
    }
}

// ---------------------------------------------------------------------------
// Settings
// ---------------------------------------------------------------------------

/// The setting keys that the file is written with: plain, and told apart.
pub proof fn lemma_keys()
    ensures
        plain_key("mosh_server"@),
        plain_key("udp_port"@),
        plain_key("terminal"@),
        plain_key("prediction"@),
        plain_key("ssh_target"@),
        plain_key("udp_host"@),
        "udp_port"@ != "mosh_server"@,
        "terminal"@ != "mosh_server"@,
        "terminal"@ != "udp_port"@,
        "prediction"@ != "mosh_server"@,
        "prediction"@ != "udp_port"@,
        "prediction"@ != "terminal"@,
        "udp_host"@ != "ssh_target"@,
        "udp_port"@ != "ssh_target"@,
        "udp_port"@ != "udp_host"@,
        "mosh_server"@ != "ssh_target"@,
        "mosh_server"@ != "udp_host"@,
        "mosh_server"@ != "udp_port"@,
        "terminal"@ != "ssh_target"@,
        "terminal"@ != "udp_host"@,
        "prediction"@ != "ssh_target"@,
        "prediction"@ != "udp_host"@,
        "prediction"@ != "mosh_server"@,
{
    reveal_strlit("mosh_server");
    reveal_strlit("udp_port");
    reveal_strlit("terminal");
    reveal_strlit("prediction");
    reveal_strlit("ssh_target");
    reveal_strlit("udp_host");
    assert("terminal"@[0] != "udp_port"@[0]);
    assert("udp_port"@[4] != "udp_host"@[4]);
    assert("terminal"@[0] != "udp_host"@[0]);
    assert("prediction"@[0] != "ssh_target"@[0]);
}

/// Reading a setting of the `[defaults]` section.
pub proof fn lemma_reads_default(st: ParseModel, key: Seq<char>, t: Seq<char>, d2: DefaultsModel)
    requires
        st.section == SectionModel::Defaults,
        plain_key(key),
        forall|n: nat| #[trigger] spec_apply_default(st.defaults, key, t, n) == Ok::<DefaultsModel, ConfigFault>(d2),
    ensures
        reads(quoted_line(key, spec_escape(t)), st, ParseModel { defaults: d2, ..st }),
{
    assert forall|n: nat| #[trigger] spec_apply_entry(st, key, t, n) == Ok::<ParseModel, ConfigFault>(
        ParseModel { defaults: d2, ..st },
    ) by {
        assert(spec_apply_default(st.defaults, key, t, n) == Ok::<DefaultsModel, ConfigFault>(d2));
    }
    lemma_reads_entry(key, t, st, ParseModel { defaults: d2, ..st });
}

/// The value set, or the one that was there.
pub open spec fn or_else<T>(v: Option<T>, d: Option<T>) -> Option<T> {
    if v is Some {
        v
    } else {
        d
    }
}

/// A mosh-server path that the reader keeps as it is.
pub open spec fn kept_server_path(v: Option<Seq<char>>) -> bool {
    v matches Some(t) ==> spec_sanitize_server_path(t) == t
}

/// A port spec, if any, that the reader accepts.
pub open spec fn kept_port(v: Option<PortSpec>) -> bool {
    v matches Some(p) ==> valid_port_spec(p)
}

/// The four optional lines of the `[defaults]` section.
pub proof fn lemma_reads_defaults_lines(st: ParseModel, d: DefaultsModel)
    requires
        st.section == SectionModel::Defaults,
        kept_server_path(d.mosh_server),
        kept_port(d.udp_port),
    ensures
        reads(
            opt_text_line("mosh_server"@, d.mosh_server) + opt_port_line("udp_port"@, d.udp_port) + opt_text_line(
                "terminal"@,
                d.terminal,
            ) + opt_prediction_line("prediction"@, d.prediction),
            st,
            ParseModel {
                defaults: DefaultsModel {
                    mosh_server: or_else(d.mosh_server, st.defaults.mosh_server),
                    udp_port: or_else(d.udp_port, st.defaults.udp_port),
                    terminal: or_else(d.terminal, st.defaults.terminal),
                    prediction: or_else(d.prediction, st.defaults.prediction),
                },
                ..st
            },
        ),
{
    lemma_keys();
    let d0 = st.defaults;
    let d1 = DefaultsModel { mosh_server: or_else(d.mosh_server, d0.mosh_server), ..d0 };
    let d2 = DefaultsModel { udp_port: or_else(d.udp_port, d0.udp_port), ..d1 };
    let d3 = DefaultsModel { terminal: or_else(d.terminal, d0.terminal), ..d2 };
    let d4 = DefaultsModel { prediction: or_else(d.prediction, d0.prediction), ..d3 };
    let s1 = ParseModel { defaults: d1, ..st };
    let s2 = ParseModel { defaults: d2, ..st };
    let s3 = ParseModel { defaults: d3, ..st };
    let s4 = ParseModel { defaults: d4, ..st };
    match d.mosh_server {
        Some(t) => {
            assert forall|n: nat| #[trigger] spec_apply_default(d0, "mosh_server"@, t, n) == Ok::<DefaultsModel, ConfigFault>(d1) by {}
            lemma_reads_default(st, "mosh_server"@, t, d1);
        },
        None => {
            assert(st == s1);
            lemma_reads_nothing(st);
        },
    }
    match d.udp_port {
        Some(p) => {
            lemma_port_text(p);
            let t = spec_port_text(p);
            assert forall|n: nat| #[trigger] spec_apply_default(d1, "udp_port"@, t, n) == Ok::<DefaultsModel, ConfigFault>(d2) by {}
            lemma_reads_default(s1, "udp_port"@, t, d2);
        },
        None => {
            assert(s1 == s2);
            lemma_reads_nothing(s1);
        },
    }
    lemma_reads_concat(opt_text_line("mosh_server"@, d.mosh_server), opt_port_line("udp_port"@, d.udp_port), st, s1, s2);
    match d.terminal {
        Some(t) => {
            assert forall|n: nat| #[trigger] spec_apply_default(d2, "terminal"@, t, n) == Ok::<DefaultsModel, ConfigFault>(d3) by {}
            lemma_reads_default(s2, "terminal"@, t, d3);
        },
        None => {
            assert(s2 == s3);
            lemma_reads_nothing(s2);
        },
    }
    lemma_reads_concat(
        opt_text_line("mosh_server"@, d.mosh_server) + opt_port_line("udp_port"@, d.udp_port),
        opt_text_line("terminal"@, d.terminal),
        st,
        s2,
        s3,
    );
    match d.prediction {
        Some(p) => {
            lemma_prediction_text(p);
            let t = prediction_text(p);
            assert forall|n: nat| #[trigger] spec_apply_default(d3, "prediction"@, t, n) == Ok::<DefaultsModel, ConfigFault>(d4) by {}
            lemma_reads_default(s3, "prediction"@, t, d4);
        },
        None => {
            assert(s3 == s4);
            lemma_reads_nothing(s3);
        },
    }
    lemma_reads_concat(
        opt_text_line("mosh_server"@, d.mosh_server) + opt_port_line("udp_port"@, d.udp_port) + opt_text_line(
            "terminal"@,
            d.terminal,
        ),
        opt_prediction_line("prediction"@, d.prediction),
        st,
        s3,
        s4,
    );
}

// ---------------------------------------------------------------------------
// Host sections
// ---------------------------------------------------------------------------

/// Every alias of `m` comes before `name`.
pub open spec fn all_before(m: Seq<HostEntryModel>, name: Seq<char>) -> bool {
    forall|j: int| 0 <= j < m.len() ==> chars_less(#[trigger] m[j].0, name)
}

proof fn lemma_push_sorted(m: Seq<HostEntryModel>, name: Seq<char>, h: HostConfigModel)
    requires
        names_sorted(m),
        all_before(m, name),
    ensures
        names_sorted(m.push((name, h))),
        find_name(m.push((name, h)), name) == Some(m.len() as int),
        lookup(m.push((name, h)), name) == Some(h),
{
    let r = m.push((name, h));
    assert forall|i: int, j: int| 0 <= i < j < r.len() implies chars_less(#[trigger] r[i].0, #[trigger] r[j].0) by {
        assert(r[i] == m[i]);
        if j < m.len() {
            assert(r[j] == m[j]);
        }
    }
    lemma_sorted_find(r, name, m.len() as int);
}

proof fn lemma_insert_position_end(m: Seq<HostEntryModel>, name: Seq<char>)
    requires
        all_before(m, name),
    ensures
        insert_position(m, name) == m.len(),
    decreases m.len(),
{
    if m.len() > 0 {
        assert(chars_less(m[0].0, name));
        assert(all_before(m.drop_first(), name)) by {
            assert forall|j: int| 0 <= j < m.drop_first().len() implies chars_less(#[trigger] m.drop_first()[j].0, name) by {
                assert(m.drop_first()[j] == m[j + 1]);
            }
        }
        lemma_insert_position_end(m.drop_first(), name);
    }
}

/// A name that comes after every alias of the table is added at its end.
proof fn lemma_insert_new_last(m: Seq<HostEntryModel>, name: Seq<char>, h: HostConfigModel)
    requires
        all_before(m, name),
    ensures
        lookup(m, name) is None,
        spec_insert(m, name, h) == m.push((name, h)),
{
    lemma_find_name(m, name);
    if let Some(i) = find_name(m, name) {
        assert(chars_less(m[i].0, name));
        lemma_chars_less_irreflexive(name);
    }
    lemma_insert_position_end(m, name);
    assert(m.insert(m.len() as int, (name, h)) =~= m.push((name, h)));
}

/// Reading a setting of the last host's section.
pub proof fn lemma_reads_host(
    st: ParseModel,
    m: Seq<HostEntryModel>,
    name: Seq<char>,
    h: HostConfigModel,
    key: Seq<char>,
    t: Seq<char>,
    h2: HostConfigModel,
)
    requires
        st.hosts == m.push((name, h)),
        st.section == SectionModel::Host(name),
        names_sorted(m),
        all_before(m, name),
        plain_key(key),
        forall|n: nat| #[trigger] spec_apply_host(h, key, t, n) == Ok::<HostConfigModel, ConfigFault>(h2),
    ensures
        reads(quoted_line(key, spec_escape(t)), st, ParseModel { hosts: m.push((name, h2)), ..st }),
{
    lemma_push_sorted(m, name, h);
    let r = m.push((name, h));
    assert(r.update(m.len() as int, (name, h2)) =~= m.push((name, h2)));
    assert(spec_insert(r, name, h2) == m.push((name, h2)));
    assert forall|n: nat| #[trigger] spec_apply_entry(st, key, t, n) == Ok::<ParseModel, ConfigFault>(
        ParseModel { hosts: m.push((name, h2)), ..st },
    ) by {
        assert(spec_apply_host(h, key, t, n) == Ok::<HostConfigModel, ConfigFault>(h2));
    }
    lemma_reads_entry(key, t, st, ParseModel { hosts: m.push((name, h2)), ..st });
}

/// What a host needs for its section to be read back as it is: a valid name and target, a
/// server path that the reader keeps and a valid port spec.
pub open spec fn host_written_back(e: HostEntryModel) -> bool {
    &&& valid_alias_name(e.0)
    &&& valid_ssh_target(e.1.ssh_target)
    &&& kept_server_path(e.1.mosh_server)
    &&& kept_port(e.1.udp_port)
}

/// The setting lines of a host's section.
pub open spec fn host_lines(h: HostConfigModel) -> Seq<char> {
    quoted_line("ssh_target"@, spec_escape(h.ssh_target)) + opt_text_line("udp_host"@, h.udp_host) + opt_port_line(
        "udp_port"@,
        h.udp_port,
    ) + opt_text_line("mosh_server"@, h.mosh_server) + opt_text_line("terminal"@, h.terminal)
        + opt_prediction_line("prediction"@, h.prediction)
}

proof fn lemma_reads_host_lines(st: ParseModel, m: Seq<HostEntryModel>, name: Seq<char>, h: HostConfigModel)
    requires
        st.hosts == m.push((name, empty_host())),
        st.section == SectionModel::Host(name),
        names_sorted(m),
        all_before(m, name),
        host_written_back((name, h)),
    ensures
        reads(host_lines(h), st, ParseModel { hosts: m.push((name, h)), ..st }),
{
    lemma_keys();
    let h0 = empty_host();
    let h1 = HostConfigModel { ssh_target: h.ssh_target, ..h0 };
    let h2 = HostConfigModel { udp_host: h.udp_host, ..h1 };
    let h3 = HostConfigModel { udp_port: h.udp_port, ..h2 };
    let h4 = HostConfigModel { mosh_server: h.mosh_server, ..h3 };
    let h5 = HostConfigModel { terminal: h.terminal, ..h4 };
    let h6 = HostConfigModel { prediction: h.prediction, ..h5 };
    assert(h6 == h);
    let s1 = ParseModel { hosts: m.push((name, h1)), ..st };
    let s2 = ParseModel { hosts: m.push((name, h2)), ..st };
    let s3 = ParseModel { hosts: m.push((name, h3)), ..st };
    let s4 = ParseModel { hosts: m.push((name, h4)), ..st };
    let s5 = ParseModel { hosts: m.push((name, h5)), ..st };
    let s6 = ParseModel { hosts: m.push((name, h6)), ..st };
    let a1 = quoted_line("ssh_target"@, spec_escape(h.ssh_target));
    let a2 = opt_text_line("udp_host"@, h.udp_host);
    let a3 = opt_port_line("udp_port"@, h.udp_port);
    let a4 = opt_text_line("mosh_server"@, h.mosh_server);
    let a5 = opt_text_line("terminal"@, h.terminal);
    let a6 = opt_prediction_line("prediction"@, h.prediction);
    assert forall|n: nat| #[trigger] spec_apply_host(h0, "ssh_target"@, h.ssh_target, n) == Ok::<HostConfigModel, ConfigFault>(h1) by {}
    lemma_reads_host(st, m, name, h0, "ssh_target"@, h.ssh_target, h1);
    match h.udp_host {
        Some(t) => {
            assert forall|n: nat| #[trigger] spec_apply_host(h1, "udp_host"@, t, n) == Ok::<HostConfigModel, ConfigFault>(h2) by {}
            lemma_reads_host(s1, m, name, h1, "udp_host"@, t, h2);
        },
        None => {
            assert(s1 == s2);
            lemma_reads_nothing(s1);
        },
    }
    lemma_reads_concat(a1, a2, st, s1, s2);
    match h.udp_port {
        Some(p) => {
            lemma_port_text(p);
            let t = spec_port_text(p);
            assert forall|n: nat| #[trigger] spec_apply_host(h2, "udp_port"@, t, n) == Ok::<HostConfigModel, ConfigFault>(h3) by {}
            lemma_reads_host(s2, m, name, h2, "udp_port"@, t, h3);
        },
        None => {
            assert(s2 == s3);
            lemma_reads_nothing(s2);
        },
    }
    lemma_reads_concat(a1 + a2, a3, st, s2, s3);
    match h.mosh_server {
        Some(t) => {
            assert forall|n: nat| #[trigger] spec_apply_host(h3, "mosh_server"@, t, n) == Ok::<HostConfigModel, ConfigFault>(h4) by {}
            lemma_reads_host(s3, m, name, h3, "mosh_server"@, t, h4);
        },
        None => {
            assert(s3 == s4);
            lemma_reads_nothing(s3);
        },
    }
    lemma_reads_concat(a1 + a2 + a3, a4, st, s3, s4);
    match h.terminal {
        Some(t) => {
            assert forall|n: nat| #[trigger] spec_apply_host(h4, "terminal"@, t, n) == Ok::<HostConfigModel, ConfigFault>(h5) by {}
            lemma_reads_host(s4, m, name, h4, "terminal"@, t, h5);
        },
        None => {
            assert(s4 == s5);
            lemma_reads_nothing(s4);
        },
    }
    lemma_reads_concat(a1 + a2 + a3 + a4, a5, st, s4, s5);
    match h.prediction {
        Some(p) => {
            lemma_prediction_text(p);
            let t = prediction_text(p);
            assert forall|n: nat| #[trigger] spec_apply_host(h5, "prediction"@, t, n) == Ok::<HostConfigModel, ConfigFault>(h6) by {}
            lemma_reads_host(s5, m, name, h5, "prediction"@, t, h6);
        },
        None => {
            assert(s5 == s6);
            lemma_reads_nothing(s5);
        },
    }
    lemma_reads_concat(a1 + a2 + a3 + a4 + a5, a6, st, s5, s6);
}

/// Reading the blank line and header that open a host's section.
proof fn lemma_reads_host_header(st: ParseModel, name: Seq<char>)
    requires
        names_sorted(st.hosts),
        all_before(st.hosts, name),
        valid_alias_name(name),
    ensures
        reads(
            "\n[hosts."@ + name + "]\n"@,
            st,
            ParseModel { hosts: st.hosts.push((name, empty_host())), section: SectionModel::Host(name), ..st },
        ),
{
    reveal_strlit("\n[hosts.");
    reveal_strlit("]\n");
    reveal_strlit("hosts.");
    reveal_strlit("defaults");
    let st2 = ParseModel { hosts: st.hosts.push((name, empty_host())), section: SectionModel::Host(name), ..st };
    let full = "hosts."@ + name;
    let x = header_line(full);
    assert("\n[hosts."@ + name + "]\n"@ =~= seq!['\n'] + (x + seq!['\n']));
    // The blank line.
    let blank = Seq::<char>::empty();
    assert forall|n: nat| #[trigger] spec_parse_line(st, blank, n) == Ok::<ParseModel, ConfigFault>(st) by {
        lemma_empty_line(st, n);
    }
    lemma_reads_line(blank, st, st);
    assert(blank + seq!['\n'] =~= seq!['\n']);
    // The header.
    assert forall|j: int| 0 <= j < name.len() implies #[trigger] name[j] != '"' && name[j] != '#' && name[j] != '\n'
        && !is_space(name[j]) by {
        assert(alias_char(name[j]));
    }
    assert forall|j: int| 0 <= j < full.len() implies full[j] != '"' && full[j] != '#' by {
        if j >= 6 {
            assert(full[j] == name[j - 6]);
        }
    }
    assert forall|j: int| 0 <= j < x.len() implies x[j] != '\n' by {
        if 7 <= j < x.len() - 1 {
            assert(x[j] == name[j - 7]);
        }
    }
    assert(x.last() == ']');
    lemma_insert_new_last(st.hosts, name, empty_host());
    assert(full.skip(6) =~= name);
    assert(!is_space(name[0]) && !is_space(name.last()));
    lemma_trim_solid(name);
    assert("hosts."@.is_prefix_of(full)) by {
        assert(full.subrange(0, 6) =~= "hosts."@);
    }
    assert(full != "defaults"@) by {
        assert(full[0] != "defaults"@[0]);
    }
    assert forall|n: nat| #[trigger] spec_parse_line(st, x, n) == Ok::<ParseModel, ConfigFault>(st2) by {
        lemma_header_line(st, full, n);
    }
    lemma_reads_line(x, st, st2);
    lemma_reads_concat(seq!['\n'], x + seq!['\n'], st, st, st2);
}

/// Reading a host's section adds the host after those already read.
pub proof fn lemma_reads_host_section(st: ParseModel, name: Seq<char>, h: HostConfigModel)
    requires
        names_sorted(st.hosts),
        all_before(st.hosts, name),
        host_written_back((name, h)),
    ensures
        reads(
            host_section(name, h),
            st,
            ParseModel { hosts: st.hosts.push((name, h)), section: SectionModel::Host(name), ..st },
        ),
{
    let m = st.hosts;
    let s1 = ParseModel { hosts: m.push((name, empty_host())), section: SectionModel::Host(name), ..st };
    lemma_reads_host_header(st, name);
    lemma_reads_host_lines(s1, m, name, h);
    assert(ParseModel { hosts: m.push((name, h)), ..s1 } == ParseModel {
        hosts: m.push((name, h)),
        section: SectionModel::Host(name),
        ..st
    });
    lemma_reads_concat("\n[hosts."@ + name + "]\n"@, host_lines(h), st, s1, ParseModel { hosts: m.push((name, h)), ..s1 });
    assert(host_section(name, h) == "\n[hosts."@ + name + "]\n"@ + host_lines(h)) by {
        assert(host_section(name, h) =~= "\n[hosts."@ + name + "]\n"@ + host_lines(h));
    }
}

/// The state after reading the sections of the hosts `hs`.
pub open spec fn after_hosts(st: ParseModel, hs: Seq<HostEntryModel>) -> ParseModel {
    ParseModel {
        hosts: hs,
        section: if hs.len() == 0 {
            st.section
        } else {
            SectionModel::Host(hs.last().0)
        },
        ..st
    }
}

/// Reading the sections of sorted hosts, from a state without hosts, gives those hosts.
pub proof fn lemma_reads_host_sections(st: ParseModel, hs: Seq<HostEntryModel>)
    requires
        st.hosts.len() == 0,
        names_sorted(hs),
        forall|i: int| 0 <= i < hs.len() ==> host_written_back(#[trigger] hs[i]),
    ensures
        reads(host_sections(hs), st, after_hosts(st, hs)),
    decreases hs.len(),
{
    if hs.len() == 0 {
        assert(st.hosts =~= hs);
        assert(after_hosts(st, hs) == st);
        lemma_reads_nothing(st);
    } else {
        let init = hs.drop_last();
        let last = hs.last();
        assert(names_sorted(init)) by {
            assert forall|i: int, j: int| 0 <= i < j < init.len() implies chars_less(#[trigger] init[i].0, #[trigger] init[j].0) by {
                assert(init[i] == hs[i] && init[j] == hs[j]);
            }
        }
        assert forall|i: int| 0 <= i < init.len() implies host_written_back(#[trigger] init[i]) by {
            assert(init[i] == hs[i]);
        }
        lemma_reads_host_sections(st, init);
        let s1 = after_hosts(st, init);
        assert(all_before(init, last.0)) by {
            assert forall|j: int| 0 <= j < init.len() implies chars_less(#[trigger] init[j].0, last.0) by {
                assert(init[j] == hs[j]);
                assert(chars_less(hs[j].0, hs[hs.len() - 1].0));
            }
        }
        assert(host_written_back(hs[hs.len() - 1]));
        lemma_reads_host_section(s1, last.0, last.1);
        assert(init.push((last.0, last.1)) =~= hs);
        lemma_reads_concat(host_sections(init), host_section(last.0, last.1), st, s1, after_hosts(st, hs));
    }
}

// ---------------------------------------------------------------------------
// The whole file
// ---------------------------------------------------------------------------

proof fn lemma_trim_not_empty(s: Seq<char>)
    requires
        s.len() > 0,
        !is_space(s[0]),
    ensures
        trim(s).len() > 0,
{
    lemma_trailing_short(s);
    assert(leading_spaces(s) == 0);
    assert(s.skip(0) =~= s);
}

proof fn lemma_trailing_short(s: Seq<char>)
    requires
        s.len() > 0,
        !is_space(s[0]),
    ensures
        trailing_spaces(s) < s.len(),
    decreases s.len(),
{
    if is_space(s.last()) {
        assert(s.len() > 1);
        assert(s.drop_last()[0] == s[0]);
        lemma_trailing_short(s.drop_last());
    }
}

proof fn lemma_targets_present(hs: Seq<HostEntryModel>)
    requires
        forall|i: int| 0 <= i < hs.len() ==> host_written_back(#[trigger] hs[i]),
    ensures
        first_missing_target(hs) is None,
    decreases hs.len(),
{
    if hs.len() > 0 {
        assert(host_written_back(hs[0]));
        assert forall|i: int| 0 <= i < hs.drop_first().len() implies host_written_back(#[trigger] hs.drop_first()[i]) by {
            assert(hs.drop_first()[i] == hs[i + 1]);
        }
        lemma_targets_present(hs.drop_first());
    }
}

/// The defaults that reading a written configuration gives: those it set, and the built-in
/// ones for the rest.
pub open spec fn filled_defaults(d: DefaultsModel) -> DefaultsModel {
    DefaultsModel {
        mosh_server: or_else(d.mosh_server, default_defaults().mosh_server),
        udp_port: or_else(d.udp_port, default_defaults().udp_port),
        terminal: or_else(d.terminal, default_defaults().terminal),
        prediction: or_else(d.prediction, default_defaults().prediction),
    }
}

/// Reading the version line and the `[defaults]` header.
proof fn lemma_reads_head(version: u32)
    requires
        version == CONFIG_VERSION,
    ensures
        reads(
            "version = "@ + decimal(version as nat) + "\n"@ + "\n[defaults]\n"@,
            initial_parse(),
            ParseModel { version: 1, section: SectionModel::Defaults, ..initial_parse() },
        ),
{
    reveal_strlit("\n");
    reveal_strlit("\n[defaults]\n");
    reveal_strlit("defaults");
    reveal_strlit("version = ");
    let s0 = initial_parse();
    let s1 = ParseModel { version: 1, ..s0 };
    let s2 = ParseModel { section: SectionModel::Defaults, ..s1 };
    // The version line.
    let v = version_line();
    assert(decimal(1) == seq![digit_char(1)]);
    assert(digit_char(1) == '1');
    assert(v =~= seq!['v', 'e', 'r', 's', 'i', 'o', 'n', ' ', '=', ' ', '1']);
    assert forall|n: nat| #[trigger] spec_parse_line(s0, v, n) == Ok::<ParseModel, ConfigFault>(s1) by {
        lemma_version_line(s0, n);
    }
    lemma_reads_line(v, s0, s1);
    let a = "version = "@ + decimal(version as nat) + "\n"@;
    assert(a =~= v + seq!['\n']);
    // The defaults header.
    let dh = header_line("defaults"@);
    assert forall|n: nat| #[trigger] spec_parse_line(s1, dh, n) == Ok::<ParseModel, ConfigFault>(s2) by {
        lemma_header_line(s1, "defaults"@, n);
    }
    lemma_reads_line(dh, s1, s2);
    let blank = Seq::<char>::empty();
    assert forall|n: nat| #[trigger] spec_parse_line(s1, blank, n) == Ok::<ParseModel, ConfigFault>(s1) by {
        lemma_empty_line(s1, n);
    }
    lemma_reads_line(blank, s1, s1);
    assert(blank + seq!['\n'] =~= seq!['\n']);
    lemma_reads_concat(seq!['\n'], dh + seq!['\n'], s1, s1, s2);
    let b = "\n[defaults]\n"@;
    assert(b =~= seq!['\n'] + (dh + seq!['\n']));
    lemma_reads_concat(a, b, s0, s1, s2);
}

/// The state that reading a written configuration ends in.
pub open spec fn read_back(c: ConfigModel) -> ParseModel {
    after_hosts(
        ParseModel {
            version: 1,
            section: SectionModel::Defaults,
            defaults: filled_defaults(c.defaults),
            ..initial_parse()
        },
        c.hosts,
    )
}

#[verifier::spinoff_prover]
#[verifier::rlimit(40)]
proof fn lemma_reads_serialized(c: ConfigModel)
    requires
        c.version == CONFIG_VERSION,
        names_sorted(c.hosts),
        forall|i: int| 0 <= i < c.hosts.len() ==> host_written_back(#[trigger] c.hosts[i]),
        kept_server_path(c.defaults.mosh_server),
        kept_port(c.defaults.udp_port),
    ensures
        reads(spec_serialize(c), initial_parse(), read_back(c)),
{
    let d = c.defaults;
    let s0 = initial_parse();
    let s2 = ParseModel { version: 1, section: SectionModel::Defaults, ..s0 };
    let s3 = ParseModel { defaults: filled_defaults(d), ..s2 };
    let ab = "version = "@ + decimal(c.version as nat) + "\n"@ + "\n[defaults]\n"@;
    lemma_reads_head(c.version);
    let dl = opt_text_line("mosh_server"@, d.mosh_server) + opt_port_line("udp_port"@, d.udp_port) + opt_text_line(
        "terminal"@,
        d.terminal,
    ) + opt_prediction_line("prediction"@, d.prediction);
    lemma_reads_defaults_lines(s2, d);
    assert(s2.defaults == default_defaults());
    lemma_reads_concat(ab, dl, s0, s2, s3);
    lemma_reads_host_sections(s3, c.hosts);
    lemma_reads_concat(ab + dl, host_sections(c.hosts), s0, s3, read_back(c));
    assert(spec_serialize(c) =~= ab + dl + host_sections(c.hosts));
}

/// Writing a configuration and reading the text back gives the same configuration: its
/// version, its hosts in name order, and its defaults, with the built-in default standing in
/// for each default it leaves unset. This holds of every configuration whose aliases are
/// valid names with a usable ssh target, whose server paths are already in the form the
/// reader keeps, and whose port specs the reader accepts.
pub proof fn lemma_serialize_parse_round_trip(c: ConfigModel)
    requires
        c.version == CONFIG_VERSION,
        names_sorted(c.hosts),
        forall|i: int| 0 <= i < c.hosts.len() ==> host_written_back(#[trigger] c.hosts[i]),
        kept_server_path(c.defaults.mosh_server),
        kept_port(c.defaults.udp_port),
    ensures
        spec_parse_config(spec_serialize(c)) == Ok::<ConfigModel, ConfigFault>(
            ConfigModel { version: c.version, defaults: filled_defaults(c.defaults), hosts: c.hosts },
        ),
{
    lemma_reads_serialized(c);
    let text = spec_serialize(c);
    let ls = lines(text);
    lemma_parse_lines_run(ls);
    assert(parse_run(initial_parse(), ls, 1) == Ok::<ParseModel, ConfigFault>(read_back(c)));
    reveal_strlit("version = ");
    assert(text[0] == 'v');
    lemma_trim_not_empty(text);
    lemma_targets_present(c.hosts);
}

/// The round trip for a configuration value, as `serialize_config` writes it and
/// `parse_config` reads it: a configuration with the conditions above reads back with its
/// defaults filled in, and one that sets all four defaults reads back as itself.
pub proof fn lemma_config_value_round_trip(c: AppConfig)
    requires
        c.version == CONFIG_VERSION,
        c.hosts.wf(),
        forall|i: int| 0 <= i < c.hosts@.len() ==> host_written_back(#[trigger] c.hosts@[i]),
        kept_server_path(c.defaults@.mosh_server),
        kept_port(c.defaults@.udp_port),
    ensures
        spec_parse_config(spec_serialize(config_model(c))) == Ok::<ConfigModel, ConfigFault>(
            ConfigModel { version: c.version, defaults: filled_defaults(c.defaults@), hosts: c.hosts@ },
        ),
        c.defaults@.mosh_server is Some && c.defaults@.udp_port is Some && c.defaults@.terminal is Some
            && c.defaults@.prediction is Some ==> spec_parse_config(spec_serialize(config_model(c)))
            == Ok::<ConfigModel, ConfigFault>(config_model(c)),
{
    c.hosts.lemma_wf_sorted();
    lemma_serialize_parse_round_trip(config_model(c));
}

} // verus!
