//! Reading the release description that the update check fetches: the tag, the version and
//! the download of a supported asset.

use vstd::prelude::*;

use crate::client::error::Error;
use crate::client::version::{spec_parse_version, strip_leading_v, Version};
use crate::text::{
    chars_of, copy_chars, find_char, find_char_index, find_seq, find_seq_index, leading_spaces, lemma_find_char,
    lemma_find_seq, lemma_leading_bound, lemma_leading_spaces, lemma_rfind_seq, push_char, rfind_seq,
    rfind_seq_index, same_chars, string_of, is_space, is_space_char,
};

verus! {

/// The version of this client.
pub const CURRENT_VERSION: &'static str = "0.1.0";

/// Where the latest release is described.
pub const RELEASE_API_URL: &'static str = "https://api.github.com/repos/BG2MKJ/WinMosh/releases/latest";

/// The release that the update check found.
#[derive(Debug, Clone, PartialEq, Eq)]
pub struct ReleaseInfo {
    pub version: Version,
    pub tag: String,
    pub asset_name: String,
    pub asset_url: String,
}

// ---------------------------------------------------------------------------
// String fields
// ---------------------------------------------------------------------------

/// A field name in double quotes, as it stands before its value.
pub open spec fn quoted_key(field: Seq<char>) -> Seq<char> {
    seq!['"'] + field + seq!['"']
}

/// The character that an escape `\c` stands for.
pub open spec fn json_unescape(c: char) -> char {
    if c == 'b' {
        '\u{8}'
    } else if c == 'f' {
        '\u{c}'
    } else if c == 'n' {
        '\n'
    } else if c == 'r' {
        '\r'
    } else if c == 't' {
        '\t'
    } else {
        c
    }
}

/// `c` before the text, if there is one.
pub open spec fn prepend_char(c: char, r: Option<Seq<char>>) -> Option<Seq<char>> {
    match r {
        Some(t) => Some(seq![c] + t),
        None => None,
    }
}

/// The text of a string whose opening quote came before `s` (after an escaping backslash
/// when `escaped`), up to its closing quote; none when it does not close.
pub open spec fn json_string_body(s: Seq<char>, escaped: bool) -> Option<Seq<char>>
    decreases s.len(),
{
    if s.len() == 0 {
        None
    } else if escaped {
        prepend_char(json_unescape(s[0]), json_string_body(s.drop_first(), false))
    } else if s[0] == '\\' {
        json_string_body(s.drop_first(), true)
    } else if s[0] == '"' {
        Some(seq![])
    } else {
        prepend_char(s[0], json_string_body(s.drop_first(), false))
    }
}

/// The string value of the first `"field"` in `json`: after the key, the first `:`, then
/// whitespace and a quoted string.
pub open spec fn spec_json_field(json: Seq<char>, field: Seq<char>) -> Option<Seq<char>> {
    let key = quoted_key(field);
    match find_seq(json, key) {
        None => None,
        Some(i) => {
            let after_key = json.skip(i + key.len());
            match find_char(after_key, ':') {
                None => None,
                Some(c) => {
                    let v = after_key.skip(c + 1);
                    let t = v.skip(leading_spaces(v) as int);
                    if t.len() > 0 && t[0] == '"' {
                        json_string_body(t.drop_first(), false)
                    } else {
                        None
                    }
                },
            }
        },
    }
}

/// `out` before the text, if there is one.
pub open spec fn prepend_text(out: Seq<char>, r: Option<Seq<char>>) -> Option<Seq<char>> {
    match r {
        Some(t) => Some(out + t),
        None => None,
    }
}

fn string_body(s: &[char]) -> (r: Option<Vec<char>>)
    ensures
        match json_string_body(s@, false) {
            Some(t) => r is Some && r->Some_0@ == t,
            None => r is None,
        },
{
    let mut out: Vec<char> = Vec::new();
    let mut escaped = false;
    let mut i: usize = 0;
    assert(s@.skip(0) =~= s@);
    while i < s.len()
        invariant
            i <= s@.len(),
            json_string_body(s@, false) == prepend_text(out@, json_string_body(s@.skip(i as int), escaped)),
        decreases s@.len() - i,
    {
        let c = s[i];
        let ghost rest = s@.skip(i as int);
        assert(rest[0] == c);
        assert(rest.drop_first() =~= s@.skip(i + 1));
        if escaped {
            let u = if c == 'b' {
                '\u{8}'
            } else if c == 'f' {
                '\u{c}'
            } else if c == 'n' {
                '\n'
            } else if c == 'r' {
                '\r'
            } else if c == 't' {
                '\t'
            } else {
                c
            };
            let ghost before = out@;
            out.push(u);
            escaped = false;
            proof {
                match json_string_body(s@.skip(i + 1), false) {
                    Some(t) => {
                        assert(before + (seq![u] + t) =~= out@ + t);
                    },
                    None => {},
                }
            }
        } else if c == '\\' {
            escaped = true;
        } else if c == '"' {
            assert(out@ + Seq::<char>::empty() =~= out@);
            return Some(out);
        } else {
            let ghost before = out@;
            out.push(c);
            proof {
                match json_string_body(s@.skip(i + 1), false) {
                    Some(t) => {
                        assert(before + (seq![c] + t) =~= out@ + t);
                    },
                    None => {},
                }
            }
        }
        i = i + 1;
    }
    assert(s@.skip(i as int).len() == 0);
    None
}

fn field_chars(json: &[char], field: &[char]) -> (r: Option<Vec<char>>)
    ensures
        match spec_json_field(json@, field@) {
            Some(t) => r is Some && r->Some_0@ == t,
            None => r is None,
        },
{
    let mut key: Vec<char> = Vec::new();
    key.push('"');
    let mut k: usize = 0;
    while k < field.len()
        invariant
            k <= field@.len(),
            key@ == seq!['"'] + field@.take(k as int),
        decreases field@.len() - k,
    {
        key.push(field[k]);
        k = k + 1;
        assert(key@ =~= seq!['"'] + field@.take(k as int));
    }
    key.push('"');
    assert(key@ =~= quoted_key(field@));
    proof {
        lemma_find_seq(json@, key@);
    }
    let i = match find_seq_index(json, key.as_slice()) {
        Some(i) => i,
        None => {
            return None;
        },
    };
    let n = json.len();
    assert(i + key@.len() <= n);
    let after_key = copy_chars(json, i + key.len(), n);
    assert(after_key@ =~= json@.skip(i + key@.len()));
    proof {
        lemma_find_char(after_key@, ':');
    }
    let c = match find_char_index(after_key.as_slice(), ':') {
        Some(c) => c,
        None => {
            return None;
        },
    };
    let n = after_key.len();
    let v = copy_chars(after_key.as_slice(), c + 1, n);
    assert(v@ =~= after_key@.skip(c + 1));
    let mut s: usize = 0;
    while s < v.len() && is_space_char(v[s])
        invariant
            s <= v@.len(),
            forall|j: int| 0 <= j < s ==> is_space(v@[j]),
        decreases v@.len() - s,
    {
        s = s + 1;
    }
    proof {
        lemma_leading_spaces(v@, s as int);
        if s < v@.len() {
            assert(v@.skip(s as int)[0] == v@[s as int]);
        }
        lemma_leading_bound(v@.skip(s as int));
    }
    let t = copy_chars(v.as_slice(), s, v.len());
    assert(t@ =~= v@.skip(leading_spaces(v@) as int));
    if t.len() == 0 || t[0] != '"' {
        return None;
    }
    let body = copy_chars(t.as_slice(), 1, t.len());
    assert(body@ =~= t@.drop_first());
    string_body(body.as_slice())
}

/// The string value of the first `"field"` in `json`, as a simple reader of the release
/// JSON finds it.
pub fn extract_string_field(json: &str, field: &str) -> (r: Option<String>)
    ensures
        match spec_json_field(json@, field@) {
            Some(t) => r is Some && r->Some_0@ == t,
            None => r is None,
        },
{
    let j = chars_of(json);
    let f = chars_of(field);
    match field_chars(j.as_slice(), f.as_slice()) {
        Some(t) => Some(string_of(t.as_slice())),
        None => None,
    }
}

// ---------------------------------------------------------------------------
// Assets
// ---------------------------------------------------------------------------

/// The downloadable assets of a release description, as (name, url) pairs: each
/// `"browser_download_url"` string paired with the nearest `"name"` string before it. An
/// url that is not a string ends the list; one without a name before it is passed over.
pub open spec fn spec_assets(s: Seq<char>) -> Seq<(Seq<char>, Seq<char>)>
    decreases s.len(),
{
    proof {
        lemma_find_seq(s, "\"browser_download_url\""@);
    }
    match find_seq(s, "\"browser_download_url\""@) {
        None => seq![],
        Some(pos) => {
            let before = s.take(pos);
            let after = s.skip(pos);
            match spec_json_field(after, "browser_download_url"@) {
                None => seq![],
                Some(url) => {
                    let rest = if after.len() > 0 {
                        spec_assets(after.skip(1))
                    } else {
                        seq![]
                    };
                    match rfind_seq(before, "\"name\""@) {
                        None => rest,
                        Some(np) => match spec_json_field(before.skip(np), "name"@) {
                            None => rest,
                            Some(name) => seq![(name, url)] + rest,
                        },
                    }
                },
            }
        },
    }
}

/// The (name, url) pairs of the assets that a release description lists.
pub fn extract_assets(json: &str) -> (v: Vec<(String, String)>)
    ensures
        v@.map_values(|p: (String, String)| (p.0@, p.1@)) == spec_assets(json@),
{
    let s = chars_of(json);
    let url_key = chars_of("\"browser_download_url\"");
    let name_key = chars_of("\"name\"");
    let url_field = chars_of("browser_download_url");
    let name_field = chars_of("name");
    let mut v: Vec<(String, String)> = Vec::new();
    let mut start: usize = 0;
    assert(s@.skip(0) =~= s@);
    loop
        invariant
            start <= s@.len(),
            s@ == json@,
            url_key@ == "\"browser_download_url\""@,
            name_key@ == "\"name\""@,
            url_field@ == "browser_download_url"@,
            name_field@ == "name"@,
            spec_assets(s@) == v@.map_values(|p: (String, String)| (p.0@, p.1@)) + spec_assets(
                s@.skip(start as int),
            ),
        decreases s@.len() - start,
    {
        let ghost before_v = v@.map_values(|p: (String, String)| (p.0@, p.1@));
        let remaining = copy_chars(s.as_slice(), start, s.len());
        let ghost rem = s@.skip(start as int);
        assert(remaining@ =~= rem);
        proof {
            lemma_find_seq(rem, url_key@);
        }
        let position = match find_seq_index(remaining.as_slice(), url_key.as_slice()) {
            Some(p) => p,
            None => {
                assert(spec_assets(rem) =~= Seq::<(Seq<char>, Seq<char>)>::empty());
                assert(before_v + spec_assets(rem) =~= before_v);
                return v;
            },
        };
        let n = remaining.len();
        let before = copy_chars(remaining.as_slice(), 0, position);
        let after = copy_chars(remaining.as_slice(), position, n);
        assert(before@ =~= rem.take(position as int));
        assert(after@ =~= rem.skip(position as int));
        let url = match field_chars(after.as_slice(), url_field.as_slice()) {
            Some(u) => u,
            None => {
                assert(spec_assets(rem) =~= Seq::<(Seq<char>, Seq<char>)>::empty());
                assert(before_v + spec_assets(rem) =~= before_v);
                return v;
            },
        };
        assert(after@.len() > 0);
        assert(after@.skip(1) =~= s@.skip(start + position + 1));
        let ghost rest = spec_assets(after@.skip(1));
        let name = match rfind_seq_index(before.as_slice(), name_key.as_slice()) {
            Some(np) => {
                proof {
                    lemma_rfind_seq(before@, name_key@);
                }
                let tail = copy_chars(before.as_slice(), np, before.len());
                assert(tail@ =~= before@.skip(np as int));
                field_chars(tail.as_slice(), name_field.as_slice())
            },
            None => None,
        };
        match name {
            Some(nm) => {
                v.push((string_of(nm.as_slice()), string_of(url.as_slice())));
                assert(v@.map_values(|p: (String, String)| (p.0@, p.1@)) =~= before_v + seq![(nm@, url@)]);
                assert(spec_assets(rem) =~= seq![(nm@, url@)] + rest);
            },
            None => {
                assert(spec_assets(rem) =~= rest);
                assert(v@.map_values(|p: (String, String)| (p.0@, p.1@)) =~= before_v);
            },
        }
        start = start + position + 1;
    }
}

// ---------------------------------------------------------------------------
// The release
// ---------------------------------------------------------------------------

/// The first asset with the given name.
pub open spec fn asset_named(assets: Seq<(Seq<char>, Seq<char>)>, name: Seq<char>) -> Option<(Seq<char>, Seq<char>)>
    decreases assets.len(),
{
    if assets.len() == 0 {
        None
    } else if assets[0].0 == name {
        Some(assets[0])
    } else {
        asset_named(assets.drop_first(), name)
    }
}

/// The asset to download: the Windows zip, else the bare executable.
pub open spec fn chosen_asset(assets: Seq<(Seq<char>, Seq<char>)>) -> Option<(Seq<char>, Seq<char>)> {
    match asset_named(assets, "winmosh-windows-x86_64.zip"@) {
        Some(a) => Some(a),
        None => asset_named(assets, "winmosh.exe"@),
    }
}

/// The tag, version parts, asset name and asset url of a release description, or the
/// message of what it lacks.
pub open spec fn spec_release(json: Seq<char>) -> Result<(Seq<char>, Seq<u64>, Seq<char>, Seq<char>), Seq<char>> {
    match spec_json_field(json, "tag_name"@) {
        None => Err("release response did not contain tag_name"@),
        Some(tag) => match spec_parse_version(strip_leading_v(tag)) {
            Err(p) => Err("invalid semantic version component: "@ + p),
            Ok(version) => match chosen_asset(spec_assets(json)) {
                None => Err(
                    "release does not contain any supported asset: winmosh-windows-x86_64.zip, winmosh.exe"@,
                ),
                Some((name, url)) => Ok((tag, version, name, url)),
            },
        },
    }
}

fn find_asset(assets: &Vec<(String, String)>, name: &str) -> (r: Option<(String, String)>)
    ensures
        match asset_named(assets@.map_values(|p: (String, String)| (p.0@, p.1@)), name@) {
            Some(a) => r is Some && r->Some_0.0@ == a.0 && r->Some_0.1@ == a.1,
            None => r is None,
        },
{
    let ghost all = assets@.map_values(|p: (String, String)| (p.0@, p.1@));
    let target = chars_of(name);
    let mut i: usize = 0;
    assert(all.skip(0) =~= all);
    while i < assets.len()
        invariant
            i <= assets@.len(),
            all == assets@.map_values(|p: (String, String)| (p.0@, p.1@)),
            target@ == name@,
            asset_named(all, name@) == asset_named(all.skip(i as int), name@),
        decreases assets@.len() - i,
    {
        let ghost rest = all.skip(i as int);
        assert(rest[0] == (assets@[i as int].0@, assets@[i as int].1@));
        let candidate = chars_of(assets[i].0.as_str());
        if same_chars(candidate.as_slice(), target.as_slice()) {
            let a = string_of(candidate.as_slice());
            let u = chars_of(assets[i].1.as_str());
            return Some((a, string_of(u.as_slice())));
        }
        assert(rest.drop_first() =~= all.skip(i + 1));
        i = i + 1;
    }
    assert(all.skip(i as int).len() == 0);
    None
}

fn strip_v(s: &str) -> (r: String)
    ensures
        r@ == strip_leading_v(s@),
{
    let c = chars_of(s);
    let mut start: usize = 0;
    assert(c@.skip(0) =~= c@);
    while start < c.len() && c[start] == 'v'
        invariant
            start <= c@.len(),
            strip_leading_v(c@) == strip_leading_v(c@.skip(start as int)),
            c@ == s@,
        decreases c@.len() - start,
    {
        assert(c@.skip(start as int).drop_first() =~= c@.skip(start + 1));
        start = start + 1;
    }
    let rest = copy_chars(c.as_slice(), start, c.len());
    assert(rest@ =~= c@.skip(start as int));
    string_of(rest.as_slice())
}

/// Reads the release description: its tag, the version the tag names, and the supported
/// asset to download.
pub fn parse_release_json(json: &str) -> (r: Result<ReleaseInfo, Error>)
    ensures
        match spec_release(json@) {
            Ok((tag, version, name, url)) => r is Ok && r->Ok_0.tag@ == tag && r->Ok_0.version@ == version
                && r->Ok_0.asset_name@ == name && r->Ok_0.asset_url@ == url,
            Err(m) => r is Err && (r->Err_0 matches Error::Update(e) && e@ == m),
        },
{
    let tag = match extract_string_field(json, "tag_name") {
        Some(t) => t,
        None => {
            return Err(Error::Update("release response did not contain tag_name".to_owned()));
        },
    };
    let core = strip_v(tag.as_str());
    let version = match Version::parse(core.as_str()) {
        Ok(v) => v,
        Err(e) => {
            return Err(e);
        },
    };
    let assets = extract_assets(json);
    let chosen = match find_asset(&assets, "winmosh-windows-x86_64.zip") {
        Some(a) => Some(a),
        None => find_asset(&assets, "winmosh.exe"),
    };
    match chosen {
        Some((asset_name, asset_url)) => Ok(ReleaseInfo { version, tag, asset_name, asset_url }),
        None => Err(
            Error::Update(
                "release does not contain any supported asset: winmosh-windows-x86_64.zip, winmosh.exe".to_owned(),
            ),
        ),
    }
}

/// `s` with each `'` doubled.
pub open spec fn ps_escaped(s: Seq<char>) -> Seq<char>
    decreases s.len(),
{
    if s.len() == 0 {
        seq![]
    } else {
        ps_escaped(s.drop_last()) + if s.last() == '\'' {
            seq!['\'', '\'']
        } else {
            seq![s.last()]
        }
    }
}

/// Escapes a value for a single-quoted PowerShell string.
pub fn escape_powershell_single_quoted(value: &str) -> (s: String)
    ensures
        s@ == ps_escaped(value@),
{
    let c = chars_of(value);
    let mut s = String::new();
    let mut i: usize = 0;
    assert(c@.take(0) =~= Seq::<char>::empty());
    while i < c.len()
        invariant
            i <= c@.len(),
            c@ == value@,
            s@ == ps_escaped(c@.take(i as int)),
        decreases c@.len() - i,
    {
        if c[i] == '\'' {
            push_char(&mut s, '\'');
            push_char(&mut s, '\'');
        } else {
            push_char(&mut s, c[i]);
        }
        assert(c@.take(i + 1).drop_last() =~= c@.take(i as int));
        i = i + 1;
        assert(s@ =~= ps_escaped(c@.take(i as int)));
    }
    assert(c@.take(i as int) =~= c@);
    s
}

} // verus!
