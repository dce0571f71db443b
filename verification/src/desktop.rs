//! Desktop entries: the command that an entry starts, and the application that a desktop
//! file describes.

use vstd::prelude::*;
use crate::split::find_from;
use crate::split::join;
use crate::split::join_chars;
use crate::split::lemma_join_append;
use crate::split::lemma_join_empty;
use crate::split::law_join_puts_separator_between;
use crate::split::law_trim_removes_white_space;
use crate::split::law_words_of_a_word;
use crate::split::lemma_trim_start;
use crate::split::lemma_until_char_skip;
use crate::split::lemma_until_white;
use crate::split::lemma_words_parted;
use crate::split::replace_pair;
use crate::split::replace_pair_chars;
use crate::split::split_words;
use crate::split::trim;
use crate::split::trim_chars;
use crate::split::trim_end;
use crate::split::until_char;
use crate::split::until_white;
use crate::split::words;
use crate::text::char_texts;
use crate::text::chars_of_range;
use crate::text::same_chars;
use crate::text::string_of;
use crate::text::texts;
use crate::text::to_chars;
use crate::text::white_space;

verus! {

/// An application that the launcher can start.
#[derive(Debug)]
pub struct AppInfo {
    /// The name under which it is listed.
    pub name: String,
    /// The shell command that starts it.
    pub command: String,
}

impl Clone for AppInfo {
    fn clone(&self) -> (r: AppInfo)
        ensures
            r == *self,
    {
        AppInfo { name: self.name.clone(), command: self.command.clone() }
    }
}

/// Whether a text equals a literal.
fn chars_are(v: &Vec<char>, lit: &str) -> (r: bool)
    ensures
        r == (v@ == lit@),
{
    let l = to_chars(lit);
    same_chars(v, &l)
}

// ---------------------------------------------------------------------------------------
// The command of an entry
// ---------------------------------------------------------------------------------------

/// The letters of the field codes, in the order in which the codes are removed.
pub open spec fn code_letters() -> Seq<char> {
    seq!['f', 'F', 'u', 'U', 'd', 'D', 'n', 'N', 'i', 'c', 'k', 'v']
}

/// A word that is a field code and nothing else.
pub open spec fn is_field_code(w: Seq<char>) -> bool {
    w.len() == 2 && w[0] == '%' && code_letters().contains(w[1])
}

/// A word without the field codes of the given letters, removed one letter after the
/// other.
pub open spec fn without_codes(w: Seq<char>, letters: Seq<char>) -> Seq<char>
    decreases letters.len(),
{
    if letters.len() == 0 {
        w
    } else {
        replace_pair(
            without_codes(w, letters.drop_last()),
            '%',
            letters.last(),
            Seq::<char>::empty(),
        )
    }
}

/// A word without field codes, with each doubled percent sign made a single one.
pub open spec fn clean_word(w: Seq<char>) -> Seq<char> {
    replace_pair(without_codes(w, code_letters()), '%', '%', seq!['%'])
}

/// The words of a command that remain: field codes are dropped, the others are cleaned,
/// and what is empty then is dropped too.
pub open spec fn clean_words(ws: Seq<Seq<char>>) -> Seq<Seq<char>>
    decreases ws.len(),
{
    if ws.len() == 0 {
        Seq::<Seq<char>>::empty()
    } else {
        let head = clean_words(ws.drop_last());
        let w = ws.last();
        if is_field_code(w) || clean_word(w).len() == 0 {
            head
        } else {
            head.push(clean_word(w))
        }
    }
}

/// The shell command for the `Exec` value of a desktop entry.
pub open spec fn cleaned_command(value: Seq<char>) -> Seq<char> {
    join(clean_words(words(value)), ' ')
}

fn letters() -> (r: Vec<char>)
    ensures
        r@ == code_letters(),
{
    let r: Vec<char> = vec!['f', 'F', 'u', 'U', 'd', 'D', 'n', 'N', 'i', 'c', 'k', 'v'];
    proof {
        assert(r@ =~= code_letters());
    }
    r
}

fn check_field_code(w: &Vec<char>) -> (r: bool)
    ensures
        r == is_field_code(w@),
{
    if w.len() != 2 || w[0] != '%' {
        return false;
    }
    let codes = letters();
    let mut i: usize = 0;
    while i < codes.len()
        invariant
            i <= codes@.len(),
            codes@ == code_letters(),
            w@.len() == 2,
            w@[0] == '%',
            forall|j: int| 0 <= j < i ==> codes@[j] != w@[1],
        decreases codes@.len() - i,
    {
        if codes[i] == w[1] {
            proof {
                assert(code_letters()[i as int] == w@[1]);
            }
            return true;
        }
        i += 1;
    }
    false
}

fn strip_word(w: &Vec<char>) -> (r: Vec<char>)
    ensures
        r@ == clean_word(w@),
{
    let codes = letters();
    let mut cur: Vec<char> = chars_of_range(w, 0, w.len());
    let mut i: usize = 0;
    proof {
        assert(cur@ =~= w@);
        assert(codes@.take(0) =~= Seq::<char>::empty());
    }
    while i < codes.len()
        invariant
            i <= codes@.len(),
            cur@ == without_codes(w@, codes@.take(i as int)),
        decreases codes@.len() - i,
    {
        proof {
            assert(codes@.take(i + 1).drop_last() =~= codes@.take(i as int));
            assert(codes@.take(i + 1).last() == codes@[i as int]);
        }
        cur = replace_pair_chars(&cur, '%', codes[i], None);
        i += 1;
    }
    proof {
        assert(codes@.take(i as int) =~= codes@);
    }
    replace_pair_chars(&cur, '%', '%', Some('%'))
}

/// The shell command for the `Exec` value of a desktop entry: the words without their
/// field codes, joined by single spaces.
pub fn clean_exec_command(value: &str) -> (r: String)
    ensures
        r@ == cleaned_command(value@),
{
    let v = to_chars(value);
    let ws = split_words(&v);
    let ghost all = char_texts(ws@);
    let mut kept: Vec<Vec<char>> = Vec::new();
    let mut i: usize = 0;
    while i < ws.len()
        invariant
            i <= ws@.len(),
            all == char_texts(ws@),
            char_texts(kept@) =~= clean_words(all.take(i as int)),
        decreases ws@.len() - i,
    {
        let w = &ws[i];
        proof {
            assert(all.take(i + 1).drop_last() =~= all.take(i as int));
            assert(all.take(i + 1).last() == w@);
        }
        if !check_field_code(w) {
            let c = strip_word(w);
            if c.len() > 0 {
                let ghost before = char_texts(kept@);
                kept.push(c);
                proof {
                    assert(char_texts(kept@) =~= before.push(c@));
                }
            }
        }
        i += 1;
    }
    proof {
        assert(all.take(i as int) =~= all);
    }
    join_chars(&kept, ' ')
}

proof fn lemma_replace_without_percent(s: Seq<char>, b: char, by: Seq<char>)
    requires
        !s.contains('%'),
    ensures
        replace_pair(s, '%', b, by) == s,
    decreases s.len(),
{
    if s.len() >= 2 {
        assert(s[0] != '%') by {
            if s[0] == '%' {
                assert(s.contains('%'));
            }
        }
        let t = s.drop_first();
        assert(!t.contains('%')) by {
            if t.contains('%') {
                let k = choose|k: int| 0 <= k < t.len() && t[k] == '%';
                assert(s[k + 1] == '%');
            }
        }
        lemma_replace_without_percent(t, b, by);
        assert(s =~= seq![s[0]] + t);
    }
}

proof fn lemma_clean_without_percent(s: Seq<char>, ls: Seq<char>)
    requires
        !s.contains('%'),
    ensures
        without_codes(s, ls) == s,
    decreases ls.len(),
{
    if ls.len() > 0 {
        lemma_clean_without_percent(s, ls.drop_last());
        lemma_replace_without_percent(s, ls.last(), Seq::<char>::empty());
    }
}

proof fn lemma_words_within(s: Seq<char>, i: int)
    requires
        0 <= i < words(s).len(),
    ensures
        words(s)[i].len() > 0,
        forall|c: char| words(s)[i].contains(c) ==> #[trigger] s.contains(c),
    decreases s.len(),
{
    if white_space(s[0]) {
        let t = s.drop_first();
        lemma_words_within(t, i);
        assert forall|c: char| words(s)[i].contains(c) implies #[trigger] s.contains(c) by {
            assert(t.contains(c));
            let k = choose|k: int| 0 <= k < t.len() && t[k] == c;
            assert(s[k + 1] == c);
        }
    } else {
        let k = until_white(s) as int;
        lemma_until_white(s);
        if i == 0 {
            assert(words(s)[0] == s.take(k));
            assert forall|c: char| words(s)[i].contains(c) implies #[trigger] s.contains(c) by {
                let j = choose|j: int| 0 <= j < s.take(k).len() && s.take(k)[j] == c;
                assert(s[j] == c);
            }
        } else {
            let t = s.skip(k);
            assert(words(s)[i] == words(t)[i - 1]);
            lemma_words_within(t, i - 1);
            assert forall|c: char| words(s)[i].contains(c) implies #[trigger] s.contains(c) by {
                assert(t.contains(c));
                let j = choose|j: int| 0 <= j < t.len() && t[j] == c;
                assert(s[k + j] == c);
            }
        }
    }
}

proof fn lemma_clean_words_plain(ws: Seq<Seq<char>>)
    requires
        forall|i: int| 0 <= i < ws.len() ==> (#[trigger] ws[i]).len() > 0 && !ws[i].contains('%'),
    ensures
        clean_words(ws) == ws,
    decreases ws.len(),
{
    if ws.len() > 0 {
        let w = ws.last();
        assert(w == ws[ws.len() - 1]);
        assert forall|i: int| 0 <= i < ws.drop_last().len() implies (#[trigger] ws.drop_last()[i]).len()
            > 0 && !ws.drop_last()[i].contains('%') by {
            assert(ws.drop_last()[i] == ws[i]);
        }
        lemma_clean_words_plain(ws.drop_last());
        lemma_clean_without_percent(w, code_letters());
        lemma_replace_without_percent(w, '%', seq!['%']);
        assert(!is_field_code(w)) by {
            if w.len() == 2 && w[0] == '%' {
                assert(w.contains('%'));
            }
        }
        assert(ws =~= ws.drop_last().push(w));
    }
}

/// A command without percent signs keeps all its words: only the white space between them
/// becomes a single space.
pub proof fn law_plain_command_kept(value: Seq<char>)
    requires
        !value.contains('%'),
    ensures
        cleaned_command(value) == join(words(value), ' '),
{
    let ws = words(value);
    assert forall|i: int| 0 <= i < ws.len() implies (#[trigger] ws[i]).len() > 0 && !ws[i].contains(
        '%',
    ) by {
        lemma_words_within(value, i);
    }
    lemma_clean_words_plain(ws);
}

proof fn lemma_clean_words_append(x: Seq<Seq<char>>, y: Seq<Seq<char>>)
    ensures
        clean_words(x + y) == clean_words(x) + clean_words(y),
    decreases y.len(),
{
    if y.len() == 0 {
        assert(x + y =~= x);
        assert(clean_words(x) + clean_words(y) =~= clean_words(x));
    } else {
        assert((x + y).drop_last() =~= x + y.drop_last());
        assert((x + y).last() == y.last());
        lemma_clean_words_append(x, y.drop_last());
        assert(clean_words(x + y) =~= clean_words(x) + clean_words(y));
    }
}

proof fn lemma_clean_words_filled(ws: Seq<Seq<char>>)
    ensures
        forall|i: int| 0 <= i < clean_words(ws).len() ==> (#[trigger] clean_words(ws)[i]).len() > 0,
    decreases ws.len(),
{
    if ws.len() > 0 {
        lemma_clean_words_filled(ws.drop_last());
        let head = clean_words(ws.drop_last());
        assert forall|i: int| 0 <= i < clean_words(ws).len() implies (#[trigger] clean_words(
            ws,
        )[i]).len() > 0 by {
            if i < head.len() {
                assert(head[i].len() > 0);
            }
        }
    }
}

/// Two commands, one after the other with a space between them where both are there.
pub open spec fn both_commands(a: Seq<char>, b: Seq<char>) -> Seq<char> {
    if a.len() == 0 {
        b
    } else if b.len() == 0 {
        a
    } else {
        a + seq![' '] + b
    }
}

/// Each word of a command is cleaned on its own: whatever white space stands between two
/// parts of a command, it becomes what its parts become, with a single space between them.
pub proof fn law_words_cleaned_alone(a: Seq<char>, c: char, b: Seq<char>)
    requires
        white_space(c),
    ensures
        cleaned_command(a + seq![c] + b) == both_commands(cleaned_command(a), cleaned_command(b)),
{
    lemma_words_parted(a, c, b);
    lemma_clean_words_append(words(a), words(b));
    lemma_clean_words_filled(words(a));
    lemma_clean_words_filled(words(b));
    lemma_join_append(clean_words(words(a)), clean_words(words(b)), ' ');
    lemma_join_empty(clean_words(words(a)), ' ');
    lemma_join_empty(clean_words(words(b)), ' ');
    if clean_words(words(a)).len() == 0 {
        assert(cleaned_command(a).len() == 0);
    }
}

/// A command of two parts with a blank between them becomes what its parts become.
pub proof fn law_blank_parts_commands(a: Seq<char>, b: Seq<char>)
    ensures
        cleaned_command(a + " "@ + b) == both_commands(cleaned_command(a), cleaned_command(b)),
{
    reveal_strlit(" ");
    assert(" "@ =~= seq![' ']);
    law_words_cleaned_alone(a, ' ', b);
}

// ---------------------------------------------------------------------------------------
// The entry in a file
// ---------------------------------------------------------------------------------------

/// A line that says nothing: empty or a comment.
pub open spec fn is_blank(t: Seq<char>) -> bool {
    t.len() == 0 || t[0] == '#'
}

/// A line that opens a section.
pub open spec fn is_header(t: Seq<char>) -> bool {
    !is_blank(t) && t[0] == '[' && t.last() == ']'
}

/// Whether the line after these stands in the section `[Desktop Entry]`: the last header
/// says so.
pub open spec fn in_entry(lines: Seq<Seq<char>>) -> bool
    decreases lines.len(),
{
    if lines.len() == 0 {
        false
    } else {
        let t = trim(lines.last());
        if is_header(t) {
            t == "[Desktop Entry]"@
        } else {
            in_entry(lines.drop_last())
        }
    }
}

/// The key and the value of a line `key=value`.
pub open spec fn assignment(t: Seq<char>) -> Option<(Seq<char>, Seq<char>)> {
    let k = until_char(t, '=') as int;
    if is_blank(t) || is_header(t) || k >= t.len() {
        None
    } else {
        Some((trim(t.take(k)), trim(t.skip(k + 1))))
    }
}

/// The assignments that stand in `[Desktop Entry]` sections, in their order.
pub open spec fn entry_pairs(lines: Seq<Seq<char>>) -> Seq<(Seq<char>, Seq<char>)>
    decreases lines.len(),
{
    if lines.len() == 0 {
        Seq::<(Seq<char>, Seq<char>)>::empty()
    } else {
        let head = entry_pairs(lines.drop_last());
        match assignment(trim(lines.last())) {
            Some(pair) => if in_entry(lines.drop_last()) {
                head.push(pair)
            } else {
                head
            },
            None => head,
        }
    }
}

/// The first value given for a key.
pub open spec fn first_value(pairs: Seq<(Seq<char>, Seq<char>)>, key: Seq<char>) -> Option<Seq<char>>
    decreases pairs.len(),
{
    if pairs.len() == 0 {
        None
    } else {
        match first_value(pairs.drop_last(), key) {
            Some(v) => Some(v),
            None => if pairs.last().0 == key {
                Some(pairs.last().1)
            } else {
                None
            },
        }
    }
}

/// Some assignment gives the key a value that is not `value`.
pub open spec fn assigned_other(
    pairs: Seq<(Seq<char>, Seq<char>)>,
    key: Seq<char>,
    value: Seq<char>,
) -> bool {
    exists|i: int| 0 <= i < pairs.len() && (#[trigger] pairs[i]).0 == key && pairs[i].1 != value
}

/// Some assignment gives the key this value.
pub open spec fn assigned(
    pairs: Seq<(Seq<char>, Seq<char>)>,
    key: Seq<char>,
    value: Seq<char>,
) -> bool {
    exists|i: int| 0 <= i < pairs.len() && (#[trigger] pairs[i]).0 == key && pairs[i].1 == value
}

/// The name and the command of the application that the lines of a desktop file describe.
/// There is none where the type is another than `Application`, where the entry is not to
/// be displayed, and where the name or the command is missing.
pub open spec fn described_app(lines: Seq<Seq<char>>) -> Option<(Seq<char>, Seq<char>)> {
    let pairs = entry_pairs(lines);
    if assigned_other(pairs, "Type"@, "Application"@) || assigned(pairs, "NoDisplay"@, "true"@) {
        None
    } else {
        match (first_value(pairs, "Name"@), first_value(pairs, "Exec"@)) {
            (Some(name), Some(value)) => Some((name, cleaned_command(value))),
            _ => None,
        }
    }
}

proof fn lemma_assigned_push(
    pairs: Seq<(Seq<char>, Seq<char>)>,
    p: (Seq<char>, Seq<char>),
    key: Seq<char>,
    value: Seq<char>,
)
    ensures
        assigned(pairs.push(p), key, value) == (assigned(pairs, key, value) || (p.0 == key && p.1
            == value)),
        assigned_other(pairs.push(p), key, value) == (assigned_other(pairs, key, value) || (p.0
            == key && p.1 != value)),
{
    let q = pairs.push(p);
    if assigned(pairs, key, value) {
        let i = choose|i: int|
            0 <= i < pairs.len() && (#[trigger] pairs[i]).0 == key && pairs[i].1 == value;
        assert(q[i] == pairs[i]);
    }
    if assigned_other(pairs, key, value) {
        let i = choose|i: int|
            0 <= i < pairs.len() && (#[trigger] pairs[i]).0 == key && pairs[i].1 != value;
        assert(q[i] == pairs[i]);
    }
    assert(q[pairs.len() as int] == p);
    if assigned(q, key, value) {
        let i = choose|i: int| 0 <= i < q.len() && (#[trigger] q[i]).0 == key && q[i].1 == value;
        if i < pairs.len() {
            assert(pairs[i] == q[i]);
        }
    }
    if assigned_other(q, key, value) {
        let i = choose|i: int| 0 <= i < q.len() && (#[trigger] q[i]).0 == key && q[i].1 != value;
        if i < pairs.len() {
            assert(pairs[i] == q[i]);
        }
    }
}

proof fn lemma_first_value_push(
    pairs: Seq<(Seq<char>, Seq<char>)>,
    p: (Seq<char>, Seq<char>),
    key: Seq<char>,
)
    ensures
        first_value(pairs.push(p), key) == match first_value(pairs, key) {
            Some(v) => Some(v),
            None => if p.0 == key {
                Some(p.1)
            } else {
                None
            },
        },
{
    assert(pairs.push(p).drop_last() =~= pairs);
}

proof fn lemma_keys_differ()
    ensures
        "Name"@ != "Exec"@,
        "Name"@ != "Type"@,
        "Name"@ != "NoDisplay"@,
        "Exec"@ != "Type"@,
        "Exec"@ != "NoDisplay"@,
        "Type"@ != "NoDisplay"@,
{
    reveal_strlit("Name");
    reveal_strlit("Exec");
    reveal_strlit("Type");
    reveal_strlit("NoDisplay");
    assert("Name"@[0] == 'N');
    assert("Exec"@[0] == 'E');
    assert("Type"@[0] == 'T');
    assert("NoDisplay"@.len() == 9);
}

/// Reads the lines of a desktop file.
pub fn parse_desktop_file(lines: &Vec<String>) -> (r: Option<AppInfo>)
    ensures
        match r {
            Some(app) => described_app(texts(lines@)) == Some((app.name@, app.command@)),
            None => described_app(texts(lines@)) is None,
        },
{
    let ghost all = texts(lines@);
    let mut in_desktop_entry = false;
    let mut name: Option<String> = None;
    let mut command: Option<String> = None;
    let mut is_application = true;
    let mut no_display = false;
    let mut i: usize = 0;
    proof {
        assert(all.take(0) =~= Seq::<Seq<char>>::empty());
    }
    while i < lines.len()
        invariant
            i <= lines@.len(),
            all == texts(lines@),
            in_desktop_entry == in_entry(all.take(i as int)),
            match name {
                Some(n) => first_value(entry_pairs(all.take(i as int)), "Name"@) == Some(n@),
                None => first_value(entry_pairs(all.take(i as int)), "Name"@) is None,
            },
            match command {
                Some(e) => first_value(entry_pairs(all.take(i as int)), "Exec"@) matches Some(v)
                    && e@ == cleaned_command(v),
                None => first_value(entry_pairs(all.take(i as int)), "Exec"@) is None,
            },
            is_application == !assigned_other(
                entry_pairs(all.take(i as int)),
                "Type"@,
                "Application"@,
            ),
            no_display == assigned(entry_pairs(all.take(i as int)), "NoDisplay"@, "true"@),
        decreases lines@.len() - i,
    {
        let ghost head = all.take(i as int);
        let ghost pairs = entry_pairs(head);
        proof {
            assert(all.take(i + 1).drop_last() =~= head);
            assert(all.take(i + 1).last() == lines@[i as int]@);
        }
        let line = to_chars(lines[i].as_str());
        let t = trim_chars(&line);
        if t.len() == 0 || t[0] == '#' {
        } else if t[0] == '[' && t[t.len() - 1] == ']' {
            in_desktop_entry = chars_are(&t, "[Desktop Entry]");
        } else if in_desktop_entry {
            let pos = find_from(&t, 0, '=');
            proof {
                assert(t@.skip(0) =~= t@);
            }
            if pos < t.len() {
                let raw_key = chars_of_range(&t, 0, pos);
                let raw_value = chars_of_range(&t, pos + 1, t.len());
                let key = trim_chars(&raw_key);
                let value = trim_chars(&raw_value);
                proof {
                    assert(raw_key@ =~= t@.take(pos as int));
                    assert(raw_value@ =~= t@.skip(pos + 1));
                    lemma_keys_differ();
                    lemma_first_value_push(pairs, (key@, value@), "Name"@);
                    lemma_first_value_push(pairs, (key@, value@), "Exec"@);
                    lemma_assigned_push(pairs, (key@, value@), "Type"@, "Application"@);
                    lemma_assigned_push(pairs, (key@, value@), "NoDisplay"@, "true"@);
                }
                if chars_are(&key, "Name") {
                    if name.is_none() {
                        name = Some(string_of(&value));
                    }
                } else if chars_are(&key, "Exec") {
                    if command.is_none() {
                        let raw = string_of(&value);
                        command = Some(clean_exec_command(raw.as_str()));
                    }
                } else if chars_are(&key, "Type") {
                    if !chars_are(&value, "Application") {
                        is_application = false;
                    }
                } else if chars_are(&key, "NoDisplay") {
                    if chars_are(&value, "true") {
                        no_display = true;
                    }
                }
            }
        }
        i += 1;
    }
    proof {
        assert(all.take(i as int) =~= all);
    }
    if is_application && !no_display {
        if let Some(n) = name {
            if let Some(e) = command {
                return Some(AppInfo { name: n, command: e });
            }
        }
    }
    None
}

// ---------------------------------------------------------------------------------------
// Laws
// ---------------------------------------------------------------------------------------

/// A line `key=value` gives the key all that stands behind the first `=`, further `=` in it,
/// without the white space around the key and around the value.
pub proof fn law_assignment_keeps_whole_value(
    k: Seq<char>,
    a: Seq<char>,
    b: Seq<char>,
    v: Seq<char>,
)
    requires
        k.len() > 0,
        !k.contains('='),
        k[0] != '#',
        k[0] != '[',
        !white_space(k[0]) && !white_space(k.last()),
        v.len() == 0 || (!white_space(v[0]) && !white_space(v.last())),
        forall|i: int| 0 <= i < a.len() ==> white_space(#[trigger] a[i]),
        forall|i: int| 0 <= i < b.len() ==> white_space(#[trigger] b[i]),
    ensures
        assignment(k + "="@ + v) == Some((k, v)),
        assignment(k + a + "="@ + b + v) == Some((k, v)),
{
    let e = Seq::<char>::empty();
    lemma_assignment(k, a, b, v);
    lemma_assignment(k, e, e, v);
    assert(k + e + "="@ + e + v =~= k + "="@ + v);
}

proof fn lemma_assignment(k: Seq<char>, a: Seq<char>, b: Seq<char>, v: Seq<char>)
    requires
        k.len() > 0,
        !k.contains('='),
        k[0] != '#',
        k[0] != '[',
        !white_space(k[0]) && !white_space(k.last()),
        v.len() == 0 || (!white_space(v[0]) && !white_space(v.last())),
        forall|i: int| 0 <= i < a.len() ==> white_space(#[trigger] a[i]),
        forall|i: int| 0 <= i < b.len() ==> white_space(#[trigger] b[i]),
    ensures
        assignment(k + a + "="@ + b + v) == Some((k, v)),
{
    reveal_strlit("=");
    assert("="@ =~= seq!['=']);
    let e = Seq::<char>::empty();
    let t = k + a + "="@ + b + v;
    let n = (k.len() + a.len()) as int;
    assert forall|j: int| 0 <= j < n implies t[j] != '=' by {
        if j < k.len() {
            assert(k.contains(k[j]));
        } else {
            assert(t[j] == a[j - k.len()]);
        }
    }
    lemma_until_char_skip(t, '=', n);
    assert(t.skip(n)[0] == '=');
    assert(t[0] == k[0]);
    assert(t.take(n) =~= e + k + a);
    assert(t.skip(n + 1) =~= b + v + e);
    law_trim_removes_white_space(e, k, a);
    law_trim_removes_white_space(b, v, e);
}

proof fn lemma_entry_line(k: Seq<char>, v: Seq<char>)
    requires
        k.len() > 0,
        !k.contains('='),
        k[0] != '#',
        k[0] != '[',
        !white_space(k[0]) && !white_space(k.last()),
        v.len() == 0 || (!white_space(v[0]) && !white_space(v.last())),
    ensures
        trim(k + "="@ + v) == k + "="@ + v,
        assignment(k + "="@ + v) == Some((k, v)),
        !is_header(k + "="@ + v),
{
    reveal_strlit("=");
    assert("="@ =~= seq!['=']);
    let e = Seq::<char>::empty();
    let t = k + "="@ + v;
    assert(t[0] == k[0]);
    if v.len() == 0 {
        assert(t.last() == '=');
    } else {
        assert(t.last() == v.last());
    }
    law_trim_removes_white_space(e, t, e);
    assert(e + t + e =~= t);
    law_assignment_keeps_whole_value(k, e, e, v);
}

proof fn lemma_key_literals()
    ensures
        "Name="@ == "Name"@ + "="@,
        "Exec="@ == "Exec"@ + "="@,
        "Type="@ == "Type"@ + "="@,
        "NoDisplay="@ == "NoDisplay"@ + "="@,
        "Name"@.len() == 4 && "Name"@[0] == 'N' && "Name"@.last() == 'e' && !"Name"@.contains('='),
        "Exec"@.len() == 4 && "Exec"@[0] == 'E' && "Exec"@.last() == 'c' && !"Exec"@.contains('='),
        "Type"@.len() == 4 && "Type"@[0] == 'T' && "Type"@.last() == 'e' && !"Type"@.contains('='),
        "NoDisplay"@.len() == 9 && "NoDisplay"@[0] == 'N' && "NoDisplay"@.last() == 'y'
            && !"NoDisplay"@.contains('='),
{
    reveal_strlit("=");
    reveal_strlit("Name=");
    reveal_strlit("Exec=");
    reveal_strlit("Type=");
    reveal_strlit("NoDisplay=");
    reveal_strlit("Name");
    reveal_strlit("Exec");
    reveal_strlit("Type");
    reveal_strlit("NoDisplay");
    assert("Name="@ =~= "Name"@ + "="@);
    assert("Exec="@ =~= "Exec"@ + "="@);
    assert("Type="@ =~= "Type"@ + "="@);
    assert("NoDisplay="@ =~= "NoDisplay"@ + "="@);
}

proof fn lemma_entry_title()
    ensures
        trim("[Desktop Entry]"@) == "[Desktop Entry]"@,
        is_header("[Desktop Entry]"@),
        assignment("[Desktop Entry]"@) is None,
{
    reveal_strlit("[Desktop Entry]");
    let t = "[Desktop Entry]"@;
    let e = Seq::<char>::empty();
    assert(t.len() == 15 && t[0] == '[' && t[14] == ']');
    law_trim_removes_white_space(e, t, e);
    assert(e + t + e =~= t);
}

proof fn lemma_entry_push(lines: Seq<Seq<char>>, k: Seq<char>, v: Seq<char>)
    requires
        k.len() > 0,
        !k.contains('='),
        k[0] != '#',
        k[0] != '[',
        !white_space(k[0]) && !white_space(k.last()),
        v.len() == 0 || (!white_space(v[0]) && !white_space(v.last())),
    ensures
        in_entry(lines.push(k + "="@ + v)) == in_entry(lines),
        entry_pairs(lines.push(k + "="@ + v)) == if in_entry(lines) {
            entry_pairs(lines).push((k, v))
        } else {
            entry_pairs(lines)
        },
{
    lemma_entry_line(k, v);
    assert(lines.push(k + "="@ + v).drop_last() =~= lines);
}

proof fn lemma_title_push(lines: Seq<Seq<char>>)
    ensures
        in_entry(lines.push("[Desktop Entry]"@)),
        entry_pairs(lines.push("[Desktop Entry]"@)) == entry_pairs(lines),
{
    lemma_entry_title();
    assert(lines.push("[Desktop Entry]"@).drop_last() =~= lines);
}

/// A desktop entry with a name and a command describes the application of that name, with
/// that command cleaned, whatever characters the two hold.
pub proof fn law_entry_describes_application(n: Seq<char>, v: Seq<char>)
    requires
        n.len() == 0 || (!white_space(n[0]) && !white_space(n.last())),
        v.len() == 0 || (!white_space(v[0]) && !white_space(v.last())),
    ensures
        described_app(seq!["[Desktop Entry]"@, "Name="@ + n, "Exec="@ + v]) == Some(
            (n, cleaned_command(v)),
        ),
        described_app(seq!["[Desktop Entry]"@, "Exec="@ + v, "Name="@ + n]) == Some(
            (n, cleaned_command(v)),
        ),
        described_app(seq!["[Desktop Entry]"@, "Name="@ + n]) is None,
        described_app(seq!["[Desktop Entry]"@, "Exec="@ + v]) is None,
        described_app(seq!["Name="@ + n, "Exec="@ + v]) is None,
{
    lemma_key_literals();
    lemma_keys_differ();
    let none = Seq::<(Seq<char>, Seq<char>)>::empty();
    let e = Seq::<Seq<char>>::empty();
    let title = e.push("[Desktop Entry]"@);
    lemma_title_push(e);
    let ln = "Name"@ + "="@ + n;
    let lv = "Exec"@ + "="@ + v;
    assert("Name="@ + n =~= ln);
    assert("Exec="@ + v =~= lv);
    lemma_entry_push(title, "Name"@, n);
    lemma_entry_push(title.push(ln), "Exec"@, v);
    lemma_entry_push(title, "Exec"@, v);
    lemma_entry_push(title.push(lv), "Name"@, n);
    lemma_entry_push(e, "Name"@, n);
    lemma_entry_push(e.push(ln), "Exec"@, v);
    assert(seq!["[Desktop Entry]"@, ln, lv] =~= title.push(ln).push(lv));
    assert(seq!["[Desktop Entry]"@, lv, ln] =~= title.push(lv).push(ln));
    assert(seq!["[Desktop Entry]"@, ln] =~= title.push(ln));
    assert(seq!["[Desktop Entry]"@, lv] =~= title.push(lv));
    assert(seq![ln, lv] =~= e.push(ln).push(lv));
    let pn = ("Name"@, n);
    let pv = ("Exec"@, v);
    lemma_first_value_push(none, pn, "Name"@);
    lemma_first_value_push(none, pn, "Exec"@);
    lemma_first_value_push(none, pv, "Name"@);
    lemma_first_value_push(none, pv, "Exec"@);
    lemma_first_value_push(none.push(pn), pv, "Name"@);
    lemma_first_value_push(none.push(pn), pv, "Exec"@);
    lemma_first_value_push(none.push(pv), pn, "Name"@);
    lemma_first_value_push(none.push(pv), pn, "Exec"@);
    lemma_assigned_push(none, pn, "Type"@, "Application"@);
    lemma_assigned_push(none, pn, "NoDisplay"@, "true"@);
    lemma_assigned_push(none, pv, "Type"@, "Application"@);
    lemma_assigned_push(none, pv, "NoDisplay"@, "true"@);
    lemma_assigned_push(none.push(pn), pv, "Type"@, "Application"@);
    lemma_assigned_push(none.push(pn), pv, "NoDisplay"@, "true"@);
    lemma_assigned_push(none.push(pv), pn, "Type"@, "Application"@);
    lemma_assigned_push(none.push(pv), pn, "NoDisplay"@, "true"@);
}

/// Once an entry has its name and its command, a further name or a further command changes
/// nothing, nor does the type `Application`, a `NoDisplay` that is not `true`, or another key.
pub proof fn law_first_name_and_command_count(
    lines: Seq<Seq<char>>,
    k: Seq<char>,
    v: Seq<char>,
)
    requires
        v.len() == 0 || (!white_space(v[0]) && !white_space(v.last())),
        k.len() > 0 && !k.contains('=') && k[0] != '#' && k[0] != '[',
        !white_space(k[0]) && !white_space(k.last()),
        k == "Type"@ ==> v == "Application"@,
        k == "NoDisplay"@ ==> v != "true"@,
        described_app(lines) is Some,
    ensures
        described_app(lines.push(k + "="@ + v)) == described_app(lines),
{
    let pairs = entry_pairs(lines);
    lemma_keys_differ();
    lemma_entry_push(lines, k, v);
    lemma_first_value_push(pairs, (k, v), "Name"@);
    lemma_first_value_push(pairs, (k, v), "Exec"@);
    lemma_assigned_push(pairs, (k, v), "Type"@, "Application"@);
    lemma_assigned_push(pairs, (k, v), "NoDisplay"@, "true"@);
}

proof fn lemma_assigned_stays(lines: Seq<Seq<char>>, more: Seq<Seq<char>>)
    ensures
        assigned(entry_pairs(lines), "NoDisplay"@, "true"@) ==> assigned(
            entry_pairs(lines + more),
            "NoDisplay"@,
            "true"@,
        ),
        assigned_other(entry_pairs(lines), "Type"@, "Application"@) ==> assigned_other(
            entry_pairs(lines + more),
            "Type"@,
            "Application"@,
        ),
    decreases more.len(),
{
    if more.len() == 0 {
        assert(lines + more =~= lines);
    } else {
        let all = lines + more;
        assert(all.drop_last() =~= lines + more.drop_last());
        lemma_assigned_stays(lines, more.drop_last());
        match assignment(trim(all.last())) {
            Some(p) => {
                let pairs = entry_pairs(all.drop_last());
                lemma_assigned_push(pairs, p, "NoDisplay"@, "true"@);
                lemma_assigned_push(pairs, p, "Type"@, "Application"@);
            },
            None => {},
        }
    }
}

/// An entry that is not to be displayed, or whose type is another than `Application`,
/// describes no application, whatever else stands before and behind it.
pub proof fn law_hidden_entry_describes_nothing(
    before: Seq<Seq<char>>,
    t: Seq<char>,
    behind: Seq<Seq<char>>,
)
    requires
        t.len() == 0 || (!white_space(t[0]) && !white_space(t.last())),
        t != "Application"@,
    ensures
        described_app(before.push("[Desktop Entry]"@).push("NoDisplay=true"@) + behind) is None,
        described_app(before.push("[Desktop Entry]"@).push("Type="@ + t) + behind) is None,
{
    lemma_key_literals();
    lemma_keys_differ();
    reveal_strlit("NoDisplay=true");
    reveal_strlit("NoDisplay=");
    reveal_strlit("true");
    assert("NoDisplay=true"@ =~= "NoDisplay"@ + "="@ + "true"@);
    assert("Type="@ + t =~= "Type"@ + "="@ + t);
    assert("true"@.len() == 4 && "true"@[0] == 't' && "true"@.last() == 'e');
    let title = before.push("[Desktop Entry]"@);
    lemma_title_push(before);
    let pairs = entry_pairs(title);
    lemma_entry_push(title, "NoDisplay"@, "true"@);
    lemma_entry_push(title, "Type"@, t);
    lemma_assigned_push(pairs, ("NoDisplay"@, "true"@), "NoDisplay"@, "true"@);
    lemma_assigned_push(pairs, ("Type"@, t), "Type"@, "Application"@);
    lemma_assigned_stays(title.push("NoDisplay=true"@), behind);
    lemma_assigned_stays(title.push("Type="@ + t), behind);
}

proof fn lemma_trim_end_begins(s: Seq<char>)
    requires
        s.len() > 0,
        !white_space(s[0]),
    ensures
        trim_end(s).len() > 0,
        trim_end(s)[0] == s[0],
    decreases s.len(),
{
    if white_space(s.last()) {
        assert(s.len() > 1);
        lemma_trim_end_begins(s.drop_last());
    }
}

proof fn lemma_quiet_line(a: Seq<Seq<char>>, line: Seq<char>, b: Seq<Seq<char>>)
    requires
        is_blank(trim(line)),
    ensures
        in_entry(a.push(line) + b) == in_entry(a + b),
        entry_pairs(a.push(line) + b) == entry_pairs(a + b),
    decreases b.len(),
{
    let x = a.push(line) + b;
    let y = a + b;
    if b.len() == 0 {
        assert(x.drop_last() =~= a);
        assert(x.last() == line);
        assert(y =~= a);
    } else {
        assert(x.drop_last() =~= a.push(line) + b.drop_last());
        assert(y.drop_last() =~= a + b.drop_last());
        assert(x.last() == b.last() && y.last() == b.last());
        lemma_quiet_line(a, line, b.drop_last());
    }
}

/// Empty lines and lines whose first character that is not white space is `#` change nothing,
/// wherever they stand.
pub proof fn law_comments_change_nothing(
    a: Seq<Seq<char>>,
    white: Seq<char>,
    rest: Seq<char>,
    b: Seq<Seq<char>>,
)
    requires
        forall|i: int| 0 <= i < white.len() ==> white_space(#[trigger] white[i]),
        rest.len() == 0 || rest[0] == '#',
    ensures
        described_app(a.push(white + rest) + b) == described_app(a + b),
{
    lemma_trim_start(white, rest);
    if rest.len() > 0 {
        lemma_trim_end_begins(rest);
    }
    lemma_quiet_line(a, white + rest, b);
}

proof fn lemma_outside_entry(a: Seq<Seq<char>>, b: Seq<Seq<char>>)
    requires
        !in_entry(a),
        forall|i: int|
            0 <= i < b.len() ==> trim(#[trigger] b[i]).len() == 0 || trim(b[i])[0] != '[',
    ensures
        !in_entry(a + b),
        entry_pairs(a + b) == entry_pairs(a),
    decreases b.len(),
{
    if b.len() == 0 {
        assert(a + b =~= a);
    } else {
        let x = a + b;
        assert(x.drop_last() =~= a + b.drop_last());
        assert(x.last() == b[b.len() - 1]);
        assert forall|i: int| 0 <= i < b.drop_last().len() implies trim(
            #[trigger] b.drop_last()[i],
        ).len() == 0 || trim(b.drop_last()[i])[0] != '[' by {
            assert(b.drop_last()[i] == b[i]);
        }
        lemma_outside_entry(a, b.drop_last());
    }
}

/// The lines of another section than `[Desktop Entry]` change nothing.
pub proof fn law_other_sections_change_nothing(
    a: Seq<Seq<char>>,
    title: Seq<char>,
    b: Seq<Seq<char>>,
)
    requires
        seq!['['] + title + seq![']'] != "[Desktop Entry]"@,
        forall|i: int|
            0 <= i < b.len() ==> trim(#[trigger] b[i]).len() == 0 || trim(b[i])[0] != '[',
    ensures
        described_app(a.push(seq!['['] + title + seq![']']) + b) == described_app(a),
{
    let h = seq!['['] + title + seq![']'];
    let e = Seq::<char>::empty();
    law_trim_removes_white_space(e, h, e);
    assert(e + h + e =~= h);
    assert(h[0] == '[' && h.last() == ']');
    assert(a.push(h).drop_last() =~= a);
    lemma_outside_entry(a.push(h), b);
}

proof fn lemma_replace_prefix(p: Seq<char>, t: Seq<char>, b: char, by: Seq<char>)
    requires
        !p.contains('%'),
    ensures
        replace_pair(p + t, '%', b, by) == p + replace_pair(t, '%', b, by),
    decreases p.len(),
{
    let s = p + t;
    if p.len() == 0 {
        assert(s =~= t);
        assert(p + replace_pair(t, '%', b, by) =~= replace_pair(t, '%', b, by));
    } else {
        let q = p.drop_first();
        assert(p.contains(p[0]));
        assert(!q.contains('%')) by {
            if q.contains('%') {
                let k = choose|k: int| 0 <= k < q.len() && q[k] == '%';
                assert(p[k + 1] == '%');
            }
        }
        lemma_replace_prefix(q, t, b, by);
        assert(s.drop_first() =~= q + t);
        assert(s[0] == p[0]);
        if s.len() < 2 {
            assert(q.len() == 0 && t.len() == 0);
            assert(s =~= p + t);
        } else {
            assert(seq![p[0]] + (q + replace_pair(t, '%', b, by)) =~= p + replace_pair(
                t,
                '%',
                b,
                by,
            ));
        }
    }
}

proof fn lemma_replace_code(p: Seq<char>, x: char, s: Seq<char>, b: char, by: Seq<char>)
    requires
        !p.contains('%'),
        !s.contains('%'),
        x == '%' ==> b == '%' || s.len() == 0 || s[0] != b,
    ensures
        replace_pair(p + seq!['%', x] + s, '%', b, by) == if x == b {
            p + by + s
        } else {
            p + seq!['%', x] + s
        },
{
    let t = seq!['%', x] + s;
    assert(p + seq!['%', x] + s =~= p + t);
    lemma_replace_prefix(p, t, b, by);
    lemma_replace_without_percent(s, b, by);
    assert(t[0] == '%' && t[1] == x);
    if x == b {
        assert(t.skip(2) =~= s);
        assert(p + (by + s) =~= p + by + s);
    } else {
        let u = seq![x] + s;
        assert(t.drop_first() =~= u);
        assert(replace_pair(u, '%', b, by) == u) by {
            if u.len() >= 2 {
                assert(u[0] == x && u[1] == s[0]);
                assert(u.drop_first() =~= s);
                assert(seq![x] + s =~= u);
            }
        }
        assert(seq!['%'] + u =~= t);
    }
}

proof fn lemma_codes_gone(p: Seq<char>, x: char, s: Seq<char>, ls: Seq<char>)
    requires
        !p.contains('%'),
        !s.contains('%'),
        !ls.contains('%'),
        x == '%' ==> s.len() == 0 || !ls.contains(s[0]),
    ensures
        without_codes(p + seq!['%', x] + s, ls) == if ls.contains(x) {
            p + s
        } else {
            p + seq!['%', x] + s
        },
    decreases ls.len(),
{
    if ls.len() > 0 {
        let head = ls.drop_last();
        let l = ls.last();
        assert(ls[ls.len() - 1] == l);
        assert(ls.contains(l));
        assert forall|c: char| head.contains(c) implies #[trigger] ls.contains(c) by {
            let k = choose|k: int| 0 <= k < head.len() && head[k] == c;
            assert(ls[k] == c);
        }
        assert forall|c: char| #[trigger] ls.contains(c) implies c == l || head.contains(c) by {
            let k = choose|k: int| 0 <= k < ls.len() && ls[k] == c;
            if k < head.len() {
                assert(head[k] == c);
            }
        }
        lemma_codes_gone(p, x, s, head);
        let none = Seq::<char>::empty();
        if head.contains(x) {
            assert(ls.contains(x));
            assert(!(p + s).contains('%')) by {
                if (p + s).contains('%') {
                    let k = choose|k: int| 0 <= k < (p + s).len() && (p + s)[k] == '%';
                    if k < p.len() {
                        assert(p[k] == '%');
                    } else {
                        assert(s[k - p.len()] == '%');
                    }
                }
            }
            lemma_replace_without_percent(p + s, l, none);
        } else {
            lemma_replace_code(p, x, s, l, none);
            assert(p + none + s =~= p + s);
        }
    }
}

proof fn lemma_one_word(w: Seq<char>)
    requires
        w.len() > 0,
        forall|i: int| 0 <= i < w.len() ==> !white_space(#[trigger] w[i]),
    ensures
        cleaned_command(w) == if is_field_code(w) {
            Seq::<char>::empty()
        } else {
            clean_word(w)
        },
{
    law_words_of_a_word(w);
    let ws = words(w);
    reveal_with_fuel(clean_words, 2);
    assert(ws.drop_last() =~= Seq::<Seq<char>>::empty());
    assert(ws.last() == w);
    let c = clean_words(ws);
    if !(is_field_code(w) || clean_word(w).len() == 0) {
        assert(c =~= seq![clean_word(w)]);
    } else {
        assert(c.len() == 0);
        assert(join(c, ' ') =~= Seq::<char>::empty());
    }
}

/// A field code in a word of a command goes, and what stands around it stays; a doubled
/// percent sign becomes a single one; a percent sign before another character stays.
pub proof fn law_field_codes_go(p: Seq<char>, x: char, s: Seq<char>)
    requires
        forall|i: int| 0 <= i < p.len() ==> !white_space(#[trigger] p[i]),
        forall|i: int| 0 <= i < s.len() ==> !white_space(#[trigger] s[i]),
        !p.contains('%'),
        !s.contains('%'),
    ensures
        "fFuUdDnNickv"@.contains(x) ==> cleaned_command(p + seq!['%', x] + s) == p + s,
        s.len() == 0 || !"fFuUdDnNickv"@.contains(s[0]) ==> cleaned_command(p + seq!['%', '%'] + s)
            == p + seq!['%'] + s,
        !"fFuUdDnNickv"@.contains(x) && x != '%' && !white_space(x) ==> cleaned_command(
            p + seq!['%', x] + s,
        ) == p + seq!['%', x] + s,
{
    reveal_strlit("fFuUdDnNickv");
    let ls = code_letters();
    assert("fFuUdDnNickv"@ =~= ls);
    assert(!ls.contains('%'));
    let by = seq!['%'];
    if ls.contains(x) || (x != '%' && !white_space(x)) {
        let w = p + seq!['%', x] + s;
        assert(!white_space('%'));
        assert(!white_space(x)) by {
            if ls.contains(x) {
                let k = choose|k: int| 0 <= k < ls.len() && ls[k] == x;
                assert(!white_space(ls[k]));
            }
        }
        assert forall|i: int| 0 <= i < w.len() implies !white_space(#[trigger] w[i]) by {
            if i < p.len() {
                assert(w[i] == p[i]);
            } else if i >= p.len() + 2 {
                assert(w[i] == s[i - p.len() - 2]);
            }
        }
        lemma_one_word(w);
        lemma_codes_gone(p, x, s, ls);
        if ls.contains(x) {
            assert(!(p + s).contains('%')) by {
                if (p + s).contains('%') {
                    let k = choose|k: int| 0 <= k < (p + s).len() && (p + s)[k] == '%';
                    if k < p.len() {
                        assert(p[k] == '%');
                    } else {
                        assert(s[k - p.len()] == '%');
                    }
                }
            }
            lemma_replace_without_percent(p + s, '%', by);
            if is_field_code(w) {
                assert(w.len() == p.len() + 2 + s.len());
                assert(p + s =~= Seq::<char>::empty());
            }
        } else {
            lemma_replace_code(p, x, s, '%', by);
            if is_field_code(w) {
                assert(p.len() == 0);
                assert(w[1] == x);
            }
        }
    }
    if s.len() == 0 || !ls.contains(s[0]) {
        let w = p + seq!['%', '%'] + s;
        assert forall|i: int| 0 <= i < w.len() implies !white_space(#[trigger] w[i]) by {
            if i < p.len() {
                assert(w[i] == p[i]);
            } else if i >= p.len() + 2 {
                assert(w[i] == s[i - p.len() - 2]);
            }
        }
        lemma_one_word(w);
        lemma_codes_gone(p, '%', s, ls);
        lemma_replace_code(p, '%', s, '%', by);
        if is_field_code(w) {
            assert(p.len() == 0);
            assert(w[1] == '%');
        }
    }
}

/// Two words without percent signs stay, with one blank between them, whatever white space
/// stood there.
pub proof fn law_two_words_stay(a: Seq<char>, white: Seq<char>, b: Seq<char>)
    requires
        a.len() > 0 && b.len() > 0 && white.len() > 0,
        !a.contains('%') && !b.contains('%'),
        forall|i: int| 0 <= i < a.len() ==> !white_space(#[trigger] a[i]),
        forall|i: int| 0 <= i < b.len() ==> !white_space(#[trigger] b[i]),
        forall|i: int| 0 <= i < white.len() ==> white_space(#[trigger] white[i]),
    ensures
        cleaned_command(a + white + b) == a + " "@ + b,
{
    reveal_strlit(" ");
    assert(" "@ =~= seq![' ']);
    let c = white[0];
    let rest = white.drop_first();
    assert(a + white + b =~= a + seq![c] + (rest + b));
    lemma_words_parted(a, c, rest + b);
    lemma_leading_white(rest, b);
    law_words_of_a_word(a);
    law_words_of_a_word(b);
    let ws = words(a + white + b);
    assert(ws =~= seq![a, b]);
    assert forall|i: int| 0 <= i < ws.len() implies (#[trigger] ws[i]).len() > 0 && !ws[i].contains(
        '%',
    ) by {
        assert(ws[i] == a || ws[i] == b);
    }
    lemma_clean_words_plain(ws);
    law_join_puts_separator_between(a, b, ' ');
}

proof fn lemma_leading_white(white: Seq<char>, b: Seq<char>)
    requires
        forall|i: int| 0 <= i < white.len() ==> white_space(#[trigger] white[i]),
    ensures
        words(white + b) == words(b),
    decreases white.len(),
{
    if white.len() == 0 {
        assert(white + b =~= b);
    } else {
        assert((white + b)[0] == white[0]);
        assert((white + b).drop_first() =~= white.drop_first() + b);
        lemma_leading_white(white.drop_first(), b);
    }
}

} // verus!
