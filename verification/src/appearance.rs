//! Cursor and font settings: the contents of the files that other programs read them from.
use vstd::prelude::*;

use crate::config::Config;
use crate::text;

verus! {

/// The icon theme file that names the cursor theme.
pub fn icons_default(cursor_theme: &str) -> (r: String)
    ensures
        r@ == "[Icon Theme]\nName=Default\nComment=Default Cursor Theme\nInherits="@
            + cursor_theme@ + "\n"@,
{
    let mut out = String::new();
    out.append("[Icon Theme]\nName=Default\nComment=Default Cursor Theme\nInherits=");
    out.append(cursor_theme);
    out.append("\n");
    assert(out@ =~= "[Icon Theme]\nName=Default\nComment=Default Cursor Theme\nInherits="@
        + cursor_theme@ + "\n"@);
    out
}

/// The settings file of the older toolkit.
pub fn gtk2_settings(config: &Config) -> (r: String)
    ensures
        r@ == "gtk-font-name=\""@ + config.font.default@ + "\"\ngtk-cursor-theme-name=\""@
            + config.cursor.theme@ + "\"\ngtk-cursor-theme-size="@ + text::decimal(
            config.cursor.size as nat,
        ) + "\n"@,
{
    let mut out = String::new();
    out.append("gtk-font-name=\"");
    out.append(config.font.default.as_str());
    out.append("\"\ngtk-cursor-theme-name=\"");
    out.append(config.cursor.theme.as_str());
    out.append("\"\ngtk-cursor-theme-size=");
    text::push_decimal(&mut out, config.cursor.size as u64);
    out.append("\n");
    assert(out@ =~= "gtk-font-name=\""@ + config.font.default@ + "\"\ngtk-cursor-theme-name=\""@
        + config.cursor.theme@ + "\"\ngtk-cursor-theme-size="@ + text::decimal(
        config.cursor.size as nat,
    ) + "\n"@);
    out
}

/// The number that is exported as the cursor's size.
pub fn cursor_size_text(config: &Config) -> (r: String)
    ensures
        r@ == text::decimal(config.cursor.size as nat),
{
    let mut out = String::new();
    text::push_decimal(&mut out, config.cursor.size as u64);
    assert(out@ =~= text::decimal(config.cursor.size as nat));
    out
}

// --- merging ---

/// A setting: a key and its value.
pub struct Setting {
    pub key: Seq<char>,
    pub value: Seq<char>,
}

pub open spec fn setting_line(u: Setting) -> Seq<char> {
    u.key + "="@ + u.value
}

/// The key of a line: what stands before its first `=`.
pub open spec fn key_of(line: Seq<char>) -> Seq<char> {
    let t = text::trim_start(line);
    text::trim(t.take(text::first_of(t, '=')))
}

/// The first line from `i` on with that key; the number of lines where there is none.
pub open spec fn key_from(lines: Seq<Seq<char>>, key: Seq<char>, i: int) -> int
    decreases lines.len() - i,
{
    if i >= lines.len() {
        lines.len() as int
    } else if key_of(lines[i]) == key {
        i
    } else {
        key_from(lines, key, i + 1)
    }
}

/// The lines with one setting made: in the place of the first line of its key, else at the end.
pub open spec fn with_setting(lines: Seq<Seq<char>>, u: Setting) -> Seq<Seq<char>> {
    let p = key_from(lines, u.key, 0);
    if p < lines.len() {
        lines.update(p, setting_line(u))
    } else {
        lines.push(setting_line(u))
    }
}

/// The lines with the first `n` settings made.
pub open spec fn with_settings(lines: Seq<Seq<char>>, us: Seq<Setting>, n: int) -> Seq<Seq<char>>
    decreases n,
{
    if n <= 0 {
        lines
    } else {
        with_setting(with_settings(lines, us, n - 1), us[n - 1])
    }
}

pub open spec fn is_header(line: Seq<char>) -> bool {
    text::trim(line) == "[Settings]"@
}

pub open spec fn has_header(lines: Seq<Seq<char>>) -> bool {
    exists|i: int| 0 <= i < lines.len() && is_header(#[trigger] lines[i])
}

/// The lines with a section header, where they had none.
pub open spec fn with_header(lines: Seq<Seq<char>>) -> Seq<Seq<char>> {
    if has_header(lines) {
        lines
    } else {
        seq!["[Settings]"@] + lines
    }
}

/// The lines that settings are merged into.
pub open spec fn base_lines(existing: Seq<char>) -> Seq<Seq<char>> {
    if existing.len() == 0 {
        seq!["[Settings]"@]
    } else {
        text::lines(existing)
    }
}

/// The lines after a merge.
pub open spec fn merged_lines(existing: Seq<char>, us: Seq<Setting>) -> Seq<Seq<char>> {
    with_settings(with_header(base_lines(existing)), us, us.len() as int)
}

/// Lines as the contents of a file: joined, with a line feed at the end where there is none.
pub open spec fn file_text(lines: Seq<Seq<char>>) -> Seq<char> {
    let j = text::joined(lines);
    if j.len() > 0 && j.last() == '\n' {
        j
    } else {
        j.push('\n')
    }
}

/// The contents of a settings file after a merge.
pub open spec fn merged(existing: Seq<char>, us: Seq<Setting>) -> Seq<char> {
    file_text(merged_lines(existing, us))
}

pub open spec fn settings_view(us: Seq<(String, String)>) -> Seq<Setting> {
    us.map_values(|u: (String, String)| Setting { key: u.0@, value: u.1@ })
}

fn line_key(line: &[char]) -> (r: Vec<char>)
    ensures
        r@ == key_of(line@),
{
    let t = text::trim_start_chars(line);
    let n = text::find_char(t, '=');
    let head = &t[0..n];
    assert(head@ =~= t@.take(n as int));
    text::copy_chars(text::trim_chars(head))
}

fn setting_chars(key: &str, value: &str) -> (r: Vec<char>)
    ensures
        r@ == setting_line(Setting { key: key@, value: value@ }),
{
    let mut out = String::new();
    out.append(key);
    out.append("=");
    out.append(value);
    assert(out@ =~= key@ + "="@ + value@);
    text::chars_of(out.as_str())
}

fn apply_setting(lines: &mut Vec<Vec<char>>, key: &str, value: &str)
    ensures
        text::views(final(lines)@) == with_setting(
            text::views(old(lines)@),
            Setting { key: key@, value: value@ },
        ),
{
    let ghost before = text::views(lines@);
    let ghost given = lines@;
    let wanted = text::chars_of(key);
    let mut i: usize = 0;
    while i < lines.len()
        invariant
            i <= lines.len(),
            lines@ == given,
            before == text::views(lines@),
            wanted@ == key@,
            key_from(before, key@, 0) == key_from(before, key@, i as int),
            *lines == *old(lines),
        decreases lines.len() - i,
    {
        assert(before[i as int] == lines@[i as int]@);
        let k = line_key(lines[i].as_slice());
        if text::same_chars(k.as_slice(), wanted.as_slice()) {
            let line = setting_chars(key, value);
            let ghost made = line@;
            lines.set(i, line);
            assert(text::views(lines@) =~= before.update(i as int, made));
            return;
        }
        i += 1;
    }
    let line = setting_chars(key, value);
    let ghost made = line@;
    lines.push(line);
    assert(text::views(lines@) =~= before.push(made));
}

fn start_lines(existing: &str) -> (r: Vec<Vec<char>>)
    ensures
        text::views(r@) == with_header(base_lines(existing@)),
{
    let chars = text::chars_of(existing);
    let mut lines: Vec<Vec<char>> = Vec::new();
    if chars.len() == 0 {
        lines.push(text::chars_of("[Settings]"));
        assert(text::views(lines@) =~= seq!["[Settings]"@]);
    } else {
        lines = text::lines_of(chars.as_slice());
    }
    let header = text::chars_of("[Settings]");
    let ghost base = base_lines(existing@);
    let mut found = false;
    let mut i: usize = 0;
    while i < lines.len()
        invariant
            i <= lines.len(),
            base == text::views(lines@),
            header@ == "[Settings]"@,
            found == (exists|j: int| 0 <= j < i && is_header(#[trigger] base[j])),
        decreases lines.len() - i,
    {
        assert(base[i as int] == lines@[i as int]@);
        let t = text::trim_chars(lines[i].as_slice());
        if text::same_chars(t, header.as_slice()) {
            assert(is_header(base[i as int]));
            found = true;
        }
        i += 1;
    }
    if !found {
        lines.insert(0, header);
        assert(text::views(lines@) =~= seq!["[Settings]"@] + base);
    }
    lines
}

fn put_together(lines: &Vec<Vec<char>>) -> (r: String)
    ensures
        r@ == file_text(text::views(lines@)),
{
    let ghost all = text::views(lines@);
    let mut out = String::new();
    let mut i: usize = 0;
    let mut ends = false;
    assert(all.take(0) =~= Seq::empty());
    while i < lines.len()
        invariant
            i <= lines.len(),
            all == text::views(lines@),
            out@ == text::joined(all.take(i as int)),
            ends == (out@.len() > 0 && out@.last() == '\n'),
        decreases lines.len() - i,
    {
        let ghost prev = all.take(i as int);
        let ghost next = all.take(i + 1);
        proof {
            assert(next.drop_last() =~= prev);
            assert(next.last() == lines@[i as int]@);
        }
        if i > 0 {
            out.push('\n');
            assert(out@ =~= text::terminated(prev)) by {
                assert(prev.drop_last().push(prev.last()) =~= prev);
            }
        } else {
            assert(prev =~= Seq::empty());
            assert(out@ =~= text::terminated(prev));
        }
        let piece = text::string_of(lines[i].as_slice());
        out.append(piece.as_str());
        assert(out@ =~= text::joined(next));
        if lines[i].len() > 0 {
            ends = lines[i][lines[i].len() - 1] == '\n';
            assert(out@.last() == lines@[i as int]@.last());
        } else {
            ends = i > 0;
        }
        i += 1;
    }
    assert(all.take(i as int) =~= all);
    if !ends {
        out.push('\n');
    }
    out
}

/// Merges settings into the contents of a settings file. Lines of other keys stay.
pub fn merge_gtk_settings(existing: &str, updates: &Vec<(String, String)>) -> (r: String)
    ensures
        r@ == merged(existing@, settings_view(updates@)),
{
    let mut lines = start_lines(existing);
    let ghost base = with_header(base_lines(existing@));
    let ghost us = settings_view(updates@);
    let mut i: usize = 0;
    while i < updates.len()
        invariant
            i <= updates.len(),
            us == settings_view(updates@),
            text::views(lines@) == with_settings(base, us, i as int),
        decreases updates.len() - i,
    {
        assert(us[i as int] == (Setting {
            key: updates@[i as int].0@,
            value: updates@[i as int].1@,
        }));
        apply_setting(&mut lines, updates[i].0.as_str(), updates[i].1.as_str());
        i += 1;
    }
    put_together(&lines)
}

/// The settings of the newer toolkit.
pub fn gtk3_settings(config: &Config) -> (r: Vec<(String, String)>)
    ensures
        settings_view(r@) == seq![
            Setting { key: "gtk-font-name"@, value: config.font.default@ },
            Setting { key: "gtk-cursor-theme-name"@, value: config.cursor.theme@ },
            Setting {
                key: "gtk-cursor-theme-size"@,
                value: text::decimal(config.cursor.size as nat),
            },
        ],
{
    let mut r: Vec<(String, String)> = Vec::new();
    r.push(("gtk-font-name".to_string(), config.font.default.clone()));
    r.push(("gtk-cursor-theme-name".to_string(), config.cursor.theme.clone()));
    r.push(("gtk-cursor-theme-size".to_string(), cursor_size_text(config)));
    assert(settings_view(r@) =~= seq![
        Setting { key: "gtk-font-name"@, value: config.font.default@ },
        Setting { key: "gtk-cursor-theme-name"@, value: config.cursor.theme@ },
        Setting { key: "gtk-cursor-theme-size"@, value: text::decimal(config.cursor.size as nat) },
    ]);
    r
}

// --- laws of merging ---

/// A key that a line can have: not empty, without white space at its ends and without `=`.
pub open spec fn is_key(k: Seq<char>) -> bool {
    k.len() > 0 && !text::is_space(k[0]) && !text::is_space(k.last()) && !k.contains('=')
}

/// Settings of different keys, none of them the header.
pub open spec fn are_settings(us: Seq<Setting>) -> bool {
    &&& forall|i: int| 0 <= i < us.len() ==> is_key((#[trigger] us[i]).key) && us[i].key
        != "[Settings]"@
    &&& forall|i: int, j: int|
        0 <= i < j < us.len() ==> (#[trigger] us[i]).key != (#[trigger] us[j]).key
}

proof fn lemma_key_of_setting(u: Setting)
    requires
        is_key(u.key),
    ensures
        key_of(setting_line(u)) == u.key,
{
    reveal_strlit("=");
    let line = setting_line(u);
    assert(line[0] == u.key[0]);
    assert(text::trim_start(line) == line);
    assert(line =~= u.key + seq!['='] + u.value);
    text::lemma_first_of_behind(u.key, '=', u.value);
    assert(line.take(u.key.len() as int) =~= u.key);
    text::lemma_trim_keeps(u.key);
}

proof fn lemma_key_from(lines: Seq<Seq<char>>, key: Seq<char>, i: int)
    requires
        0 <= i <= lines.len(),
    ensures
        i <= key_from(lines, key, i) <= lines.len(),
        key_from(lines, key, i) < lines.len() ==> key_of(lines[key_from(lines, key, i)]) == key,
        forall|j: int| i <= j < key_from(lines, key, i) ==> key_of(#[trigger] lines[j]) != key,
    decreases lines.len() - i,
{
    if i < lines.len() && key_of(lines[i]) != key {
        lemma_key_from(lines, key, i + 1);
    }
}

proof fn lemma_key_from_is(lines: Seq<Seq<char>>, key: Seq<char>, i: int, p: int)
    requires
        0 <= i <= p < lines.len(),
        key_of(lines[p]) == key,
        forall|j: int| i <= j < p ==> key_of(#[trigger] lines[j]) != key,
    ensures
        key_from(lines, key, i) == p,
    decreases p - i,
{
    if i < p {
        lemma_key_from_is(lines, key, i + 1, p);
    }
}

/// The first line of the setting's key is the setting.
pub open spec fn settled(lines: Seq<Seq<char>>, u: Setting) -> bool {
    let p = key_from(lines, u.key, 0);
    p < lines.len() && lines[p] == setting_line(u)
}

proof fn lemma_settled_after(lines: Seq<Seq<char>>, u: Setting)
    requires
        is_key(u.key),
    ensures
        settled(with_setting(lines, u), u),
{
    lemma_key_of_setting(u);
    lemma_key_from(lines, u.key, 0);
    let p = key_from(lines, u.key, 0);
    let after = with_setting(lines, u);
    assert forall|j: int| 0 <= j < p implies key_of(#[trigger] after[j]) != u.key by {
        assert(after[j] == lines[j]);
    }
    lemma_key_from_is(after, u.key, 0, p);
}

proof fn lemma_settled_stays(lines: Seq<Seq<char>>, u: Setting, other: Setting)
    requires
        is_key(u.key),
        is_key(other.key),
        u.key != other.key,
        settled(lines, u),
    ensures
        settled(with_setting(lines, other), u),
{
    lemma_key_of_setting(u);
    lemma_key_of_setting(other);
    lemma_key_from(lines, u.key, 0);
    lemma_key_from(lines, other.key, 0);
    let p = key_from(lines, u.key, 0);
    let after = with_setting(lines, other);
    assert forall|j: int| 0 <= j < p implies key_of(#[trigger] after[j]) != u.key by {
        assert(after[j] == lines[j] || after[j] == setting_line(other));
    }
    assert(after[p] == lines[p]);
    lemma_key_from_is(after, u.key, 0, p);
}

proof fn lemma_all_settled(lines: Seq<Seq<char>>, us: Seq<Setting>, n: int, k: int)
    requires
        are_settings(us),
        0 <= k < n <= us.len(),
    ensures
        settled(with_settings(lines, us, n), us[k]),
    decreases n,
{
    let before = with_settings(lines, us, n - 1);
    if k == n - 1 {
        lemma_settled_after(before, us[k]);
    } else {
        lemma_all_settled(lines, us, n - 1, k);
        lemma_settled_stays(before, us[k], us[n - 1]);
    }
}

proof fn lemma_settled_unchanged(lines: Seq<Seq<char>>, us: Seq<Setting>, n: int)
    requires
        0 <= n <= us.len(),
        forall|k: int| 0 <= k < n ==> settled(lines, #[trigger] us[k]),
    ensures
        with_settings(lines, us, n) == lines,
    decreases n,
{
    if n > 0 {
        lemma_settled_unchanged(lines, us, n - 1);
        let u = us[n - 1];
        lemma_key_from(lines, u.key, 0);
        assert(with_setting(lines, u) =~= lines);
    }
}

/// Lines of keys that are not set stay where they are and as they are.
pub proof fn law_merge_keeps_other_keys(
    lines: Seq<Seq<char>>,
    us: Seq<Setting>,
    n: int,
    i: int,
)
    requires
        0 <= n <= us.len(),
        0 <= i < lines.len(),
        forall|k: int| 0 <= k < n ==> key_of(lines[i]) != (#[trigger] us[k]).key,
    ensures
        with_settings(lines, us, n).len() >= lines.len(),
        with_settings(lines, us, n)[i] == lines[i],
    decreases n,
{
    if n > 0 {
        law_merge_keeps_other_keys(lines, us, n - 1, i);
        let before = with_settings(lines, us, n - 1);
        lemma_key_from(before, us[n - 1].key, 0);
    }
}

/// After a merge, each setting is what the first line of its key says.
pub proof fn law_merge_makes_settings(existing: Seq<char>, us: Seq<Setting>, k: int)
    requires
        are_settings(us),
        0 <= k < us.len(),
    ensures
        settled(merged_lines(existing, us), us[k]),
{
    lemma_all_settled(with_header(base_lines(existing)), us, us.len() as int, k);
}

proof fn lemma_header_key(line: Seq<char>)
    requires
        is_header(line),
    ensures
        key_of(line) == "[Settings]"@,
        line.len() > 0,
{
    reveal_strlit("[Settings]");
    let t = text::trim_start(line);
    text::lemma_first_of(t, '=');
    if t.contains('=') {
        text::lemma_trim_start_twice(line);
        text::lemma_trim_keeps_others(t, '=');
        assert(text::trim(t) == text::trim(line));
        let i = "[Settings]"@.index_of('=');
        assert("[Settings]"@[i] == '=');
        assert(false);
    }
    assert(t.take(t.len() as int) =~= t);
    text::lemma_trim_start_twice(line);
}

proof fn lemma_merge_keeps_header(lines: Seq<Seq<char>>, us: Seq<Setting>)
    requires
        are_settings(us),
        has_header(lines),
    ensures
        has_header(with_settings(lines, us, us.len() as int)),
{
    let i = choose|i: int| 0 <= i < lines.len() && is_header(#[trigger] lines[i]);
    lemma_header_key(lines[i]);
    law_merge_keeps_other_keys(lines, us, us.len() as int, i);
    assert(is_header(with_settings(lines, us, us.len() as int)[i]));
}

/// A merged file has its header.
pub proof fn law_merged_file_has_header(existing: Seq<char>, us: Seq<Setting>)
    requires
        are_settings(us),
    ensures
        has_header(merged_lines(existing, us)),
{
    reveal_strlit("[Settings]");
    let base = base_lines(existing);
    let start = with_header(base);
    assert(has_header(start)) by {
        if !has_header(base) {
            text::lemma_trim_keeps("[Settings]"@);
            assert(start[0] == "[Settings]"@);
            assert(is_header(start[0]));
        }
    }
    lemma_merge_keeps_header(start, us);
}

proof fn lemma_settled_without_last(lines: Seq<Seq<char>>, u: Setting)
    requires
        lines.len() > 0,
        lines.last().len() == 0,
        settled(lines, u),
        is_key(u.key),
    ensures
        settled(lines.drop_last(), u),
{
    let front = lines.drop_last();
    lemma_key_from(lines, u.key, 0);
    let p = key_from(lines, u.key, 0);
    assert(setting_line(u).len() > 0);
    assert(p < front.len());
    assert forall|j: int| 0 <= j < p implies key_of(#[trigger] front[j]) != u.key by {
        assert(front[j] == lines[j]);
    }
    lemma_key_from_is(front, u.key, 0, p);
}

/// Lines that reading gives back, with one empty line at most at the end.
pub open spec fn reads_back(lines: Seq<Seq<char>>) -> bool {
    &&& forall|i: int| 0 <= i < lines.len() ==> text::is_line(#[trigger] lines[i])
    &&& lines.len() >= 2 ==> lines.last().len() > 0 || lines[lines.len() - 2].len() > 0
}

/// A merge that is made again changes nothing more. Its lines must be such as reading gives back:
/// a carriage return that ends a line, or a second empty line at the end, is dropped each time.
pub proof fn law_merge_is_idempotent(existing: Seq<char>, us: Seq<Setting>)
    requires
        are_settings(us),
        reads_back(merged_lines(existing, us)),
    ensures
        merged(merged(existing, us), us) == merged(existing, us),
{
    let all = merged_lines(existing, us);
    let n = us.len() as int;
    law_merged_file_has_header(existing, us);
    let h = choose|i: int| 0 <= i < all.len() && is_header(#[trigger] all[i]);
    lemma_header_key(all[h]);
    assert forall|k: int| 0 <= k < n implies settled(all, #[trigger] us[k]) by {
        law_merge_makes_settings(existing, us, k);
    }
    let j = text::joined(all);
    assert(all.drop_last().push(all.last()) =~= all);
    if all.last().len() > 0 {
        assert(j.last() == all.last().last());
        assert(text::is_line(all[all.len() - 1]));
        assert(j.last() != '\n') by {
            assert(all.last()[all.last().len() - 1] == j.last());
        }
        assert(file_text(all) =~= text::terminated(all));
        text::lemma_lines_terminated(all);
        assert(base_lines(file_text(all)) == all);
        assert(with_header(all) == all);
        lemma_settled_unchanged(all, us, n);
    } else {
        let front = all.drop_last();
        assert(all.len() >= 2) by {
            assert(all[h].len() > 0);
        }
        assert(j =~= text::terminated(front));
        assert(front.drop_last().push(front.last()) =~= front);
        assert(j.last() == '\n');
        assert(file_text(all) == text::terminated(front));
        assert forall|i: int| 0 <= i < front.len() implies text::is_line(#[trigger] front[i]) by {
            assert(front[i] == all[i]);
        }
        text::lemma_lines_terminated(front);
        assert(base_lines(file_text(all)) == front);
        assert(front[h] == all[h]);
        assert(is_header(front[h]));
        assert(with_header(front) == front);
        assert forall|k: int| 0 <= k < n implies settled(front, #[trigger] us[k]) by {
            lemma_settled_without_last(all, us[k]);
        }
        lemma_settled_unchanged(front, us, n);
        let jf = text::joined(front);
        assert(front.last() == all[all.len() - 2]);
        assert(text::is_line(front[front.len() - 1]));
        assert(jf.last() != '\n') by {
            assert(jf.last() == front.last().last());
            assert(front.last()[front.last().len() - 1] == jf.last());
        }
        assert(file_text(front) =~= text::terminated(front));
    }
}

/// A setting that is there is replaced where it stands, and one that is not is added at the end; no
/// other line changes, and a line is a setting's where its key is.
pub proof fn law_setting_is_replaced_where_it_stands(
    lines: Seq<Seq<char>>,
    u: Setting,
    p: int,
    j: int,
)
    requires
        0 <= p <= lines.len(),
        forall|i: int| 0 <= i < p ==> key_of(#[trigger] lines[i]) != u.key,
        p < lines.len() ==> key_of(lines[p]) == u.key,
        0 <= j < lines.len(),
    ensures
        p < lines.len() ==> with_setting(lines, u).len() == lines.len() && with_setting(lines, u)[p]
            == u.key + "="@ + u.value,
        p == lines.len() ==> with_setting(lines, u).len() == lines.len() + 1 && with_setting(
            lines,
            u,
        ).last() == u.key + "="@ + u.value,
        j != p ==> with_setting(lines, u)[j] == lines[j],
{
    lemma_key_from(lines, u.key, 0);
    let k = key_from(lines, u.key, 0);
    assert(k == p) by {
        if k < p {
            assert(key_of(lines[k]) == u.key);
        }
        if k > p {
            assert(key_of(lines[p]) != u.key);
        }
    }
}

/// The key of a line stands before its first equals sign, and the blanks round it do not count.
pub proof fn law_key_stands_before_the_equals_sign(
    before: Seq<char>,
    key: Seq<char>,
    behind: Seq<char>,
    value: Seq<char>,
)
    requires
        forall|i: int| 0 <= i < before.len() ==> text::is_space(#[trigger] before[i]),
        forall|i: int| 0 <= i < behind.len() ==> text::is_space(#[trigger] behind[i]),
        is_key(key),
    ensures
        key_of(before + key + behind + seq!['='] + value) == key,
{
    let named = key + behind;
    let t = named + seq!['='] + value;
    let line = before + key + behind + seq!['='] + value;
    assert(line =~= before + t);
    assert(t[0] == key[0]);
    text::lemma_skip_blanks(before, t);
    assert(!named.contains('=')) by {
        if named.contains('=') {
            let k = named.index_of('=');
            if k < key.len() {
                assert(key[k] == '=');
                assert(key.contains('='));
            } else {
                assert(behind[k - key.len()] == '=');
                assert('=' as int == 0x3d);
            }
        }
    }
    text::lemma_first_of_behind(named, '=', value);
    let n = text::first_of(t, '=');
    assert(t.take(n) =~= named);
    assert(named[0] == key[0]);
    assert(text::trim_start(named) == named);
    text::lemma_trim_end_blanks(key, behind);
}

/// A file without the heading gets it as its first line, before all that it had; one that has it stays
/// as it is. A file ends with a line feed.
pub proof fn law_heading_comes_first(lines: Seq<Seq<char>>, i: int)
    requires
        0 <= i < lines.len(),
    ensures
        has_header(with_header(lines)),
        has_header(lines) ==> with_header(lines) == lines,
        !has_header(lines) ==> with_header(lines).len() == lines.len() + 1 && with_header(lines)[0]
            == "[Settings]"@ && with_header(lines)[i + 1] == lines[i],
        file_text(lines).len() > 0 && file_text(lines).last() == '\n',
        has_header(base_lines(Seq::empty())),
{
    reveal_strlit("[Settings]");
    let h = "[Settings]"@;
    assert(h[0] == '[' && h.last() == ']');
    assert('[' as int == 0x5b && ']' as int == 0x5d);
    text::lemma_trim_keeps(h);
    assert(is_header(h));
    if !has_header(lines) {
        assert(with_header(lines)[0] == h);
    }
    assert(base_lines(Seq::empty())[0] == h);
}

} // verus!
