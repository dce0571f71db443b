//! What the launcher offers: where it looks, and the lists that it makes of what it finds.

use vstd::prelude::*;
use vstd::string::StringExecFns;
use crate::desktop::AppInfo;
use crate::order::lemma_text_irreflexive;
use crate::order::lemma_text_total;
use crate::order::lemma_text_transitive;
use crate::order::rank_names;
use crate::order::strictly_ascending;
use crate::order::text_before;
use crate::order::Rank;
use crate::split::split_chars;
use crate::split::split_on;
use crate::text::char_texts;
use crate::text::owned;
use crate::text::string_of;
use crate::text::texts;
use crate::text::to_chars;

verus! {

// ---------------------------------------------------------------------------------------
// Where to look
// ---------------------------------------------------------------------------------------

/// The path of `rel` below `base`: a slash goes between the two unless `base` is empty or
/// ends with one.
pub open spec fn below(base: Seq<char>, rel: Seq<char>) -> Seq<char> {
    if base.len() == 0 || base.last() == '/' {
        base + rel
    } else {
        base + seq!['/'] + rel
    }
}

/// The path of `rel`, which is no absolute path, below `base`.
pub fn join_path(base: &str, rel: &str) -> (r: String)
    ensures
        r@ == below(base@, rel@),
{
    let b = to_chars(base);
    let mut out = string_of(&b);
    if b.len() > 0 && b[b.len() - 1] != '/' {
        out.push('/');
        proof {
            assert(out@ =~= base@ + seq!['/']);
        }
    }
    out.append(rel);
    out
}

/// The directories of a search path.
pub fn path_dirs(path_var: &str) -> (r: Vec<String>)
    ensures
        texts(r@) == split_on(path_var@, ':'),
{
    let v = to_chars(path_var);
    let parts = split_chars(&v, ':');
    let mut out: Vec<String> = Vec::new();
    let mut i: usize = 0;
    while i < parts.len()
        invariant
            i <= parts@.len(),
            texts(out@) =~= char_texts(parts@).take(i as int),
        decreases parts@.len() - i,
    {
        let ghost before = texts(out@);
        let s = string_of(&parts[i]);
        out.push(s);
        i += 1;
        proof {
            assert(texts(out@) =~= before.push(char_texts(parts@)[i - 1]));
        }
    }
    proof {
        assert(texts(out@) =~= char_texts(parts@));
    }
    out
}

/// Whether a file mode lets anybody execute the file.
pub fn is_executable(mode: u32) -> (r: bool)
    ensures
        r == (mode & 0o111 != 0),
{
    mode & 0o111 != 0
}

/// Whether a file name has the extension `desktop`, with something before it.
pub fn is_desktop_entry(file_name: &str) -> (r: bool)
    ensures
        r == (file_name@.len() > 8 && file_name@.skip(file_name@.len() - 8) == ".desktop"@),
{
    let v = to_chars(file_name);
    let ext = to_chars(".desktop");
    proof {
        reveal_strlit(".desktop");
    }
    if v.len() <= 8 {
        return false;
    }
    let n = v.len();
    let from: usize = n - 8;
    let mut i: usize = 0;
    while i < 8
        invariant
            i <= 8,
            v@.len() > 8,
            from == n - 8,
            n == v@.len(),
            ext@ == ".desktop"@,
            ext@.len() == 8,
            v@ == file_name@,
            forall|j: int| 0 <= j < i ==> v@[from + j] == ext@[j],
        decreases 8 - i,
    {
        if v[from + i] != ext[i] {
            proof {
                assert(v@.skip(from as int)[i as int] != ext@[i as int]);
            }
            return false;
        }
        i += 1;
    }
    proof {
        assert(v@.skip(from as int) =~= ext@);
    }
    true
}

/// The directories that hold desktop entries, those that take precedence first: the
/// user's own, the local ones, those of the system.
pub open spec fn app_dirs_of(home: Option<Seq<char>>) -> Seq<Seq<char>> {
    let system = seq!["/usr/local/share/applications"@, "/usr/share/applications"@];
    match home {
        Some(h) => seq![below(h, ".local/share/applications"@)] + system,
        None => system,
    }
}

/// The directories that hold desktop entries, those that take precedence first.
pub fn app_dirs(home: Option<&str>) -> (r: Vec<String>)
    ensures
        texts(r@) == app_dirs_of(
            match home {
                Some(h) => Some(h@),
                None => None,
            },
        ),
{
    let mut out: Vec<String> = Vec::new();
    if let Some(h) = home {
        out.push(join_path(h, ".local/share/applications"));
    }
    out.push(owned("/usr/local/share/applications"));
    out.push(owned("/usr/share/applications"));
    proof {
        match home {
            Some(h) => {
                assert(texts(out@) =~= app_dirs_of(Some(h@)));
            },
            None => {
                assert(texts(out@) =~= app_dirs_of(None));
            },
        }
    }
    out
}

/// The file that keeps the launch history: in the cache directory, which is the one named
/// for it or else `.cache` in the home directory.
pub open spec fn cache_file_of(
    cache_home: Option<Seq<char>>,
    home: Option<Seq<char>>,
) -> Option<Seq<char>> {
    match (cache_home, home) {
        (Some(c), _) => Some(below(c, "cce-cloud-apps.json"@)),
        (None, Some(h)) => Some(below(below(h, ".cache"@), "cce-cloud-apps.json"@)),
        (None, None) => None,
    }
}

/// The file that keeps the launch history, from the variables `XDG_CACHE_HOME` and `HOME`.
pub fn get_cache_path(cache_home: Option<&str>, home: Option<&str>) -> (r: Option<String>)
    ensures
        (match r {
            Some(p) => Some(p@),
            None => None,
        }) == cache_file_of(
            match cache_home {
                Some(c) => Some(c@),
                None => None,
            },
            match home {
                Some(h) => Some(h@),
                None => None,
            },
        ),
{
    if let Some(c) = cache_home {
        Some(join_path(c, "cce-cloud-apps.json"))
    } else if let Some(h) = home {
        let dir = join_path(h, ".cache");
        Some(join_path(dir.as_str(), "cce-cloud-apps.json"))
    } else {
        None
    }
}

/// The socket of the daemon, one for each display: in the user's runtime directory where
/// that exists, and else in the directory for temporary files.
pub open spec fn socket_of(
    uid: nat,
    runtime_dir_exists: bool,
    display: Option<Seq<char>>,
) -> Seq<char> {
    let d = match display {
        Some(d) => d,
        None => "wayland-0"@,
    };
    if runtime_dir_exists {
        runtime_dir_of(uid) + "/cce-cloud-"@ + d + ".socket"@
    } else {
        "/tmp/cce-cloud-"@ + crate::number::decimal(uid) + "-"@ + d + ".socket"@
    }
}

/// Each display has a socket of its own, so that the daemon of one session does not answer
/// for another.
pub proof fn law_socket_of_each_display(
    uid: nat,
    runtime_dir_exists: bool,
    a: Seq<char>,
    b: Seq<char>,
)
    requires
        a != b,
    ensures
        socket_of(uid, runtime_dir_exists, Some(a)) != socket_of(uid, runtime_dir_exists, Some(b)),
{
    let head = if runtime_dir_exists {
        runtime_dir_of(uid) + "/cce-cloud-"@
    } else {
        "/tmp/cce-cloud-"@ + crate::number::decimal(uid) + "-"@
    };
    let tail = ".socket"@;
    let (x, y) = (head + a + tail, head + b + tail);
    if x == y {
        assert(x.len() == y.len());
        assert(x.subrange(head.len() as int, (head.len() + a.len()) as int) =~= a);
        assert(y.subrange(head.len() as int, (head.len() + b.len()) as int) =~= b);
    }
}

/// The user's runtime directory.
pub open spec fn runtime_dir_of(uid: nat) -> Seq<char> {
    "/run/user/"@ + crate::number::decimal(uid)
}

/// The user's runtime directory.
pub fn runtime_dir(uid: u32) -> (r: String)
    ensures
        r@ == runtime_dir_of(uid as nat),
{
    let mut out = owned("/run/user/");
    let n = crate::number::to_decimal(uid as u64);
    out.append(n.as_str());
    out
}

/// The socket of the daemon.
pub fn socket_path(uid: u32, runtime_dir_exists: bool, display: Option<&str>) -> (r: String)
    ensures
        r@ == socket_of(
            uid as nat,
            runtime_dir_exists,
            match display {
                Some(d) => Some(d@),
                None => None,
            },
        ),
{
    let d: &str = match display {
        Some(d) => d,
        None => "wayland-0",
    };
    let mut out: String;
    if runtime_dir_exists {
        out = runtime_dir(uid);
        out.append("/cce-cloud-");
    } else {
        out = owned("/tmp/cce-cloud-");
        let n = crate::number::to_decimal(uid as u64);
        out.append(n.as_str());
        out.append("-");
    }
    out.append(d);
    out.append(".socket");
    out
}

// ---------------------------------------------------------------------------------------
// What was found
// ---------------------------------------------------------------------------------------

/// Where `name` belongs in an ascending list: all names before that place stand before
/// it, and no name from there on does.
fn place_of(names: &Vec<String>, name: &str) -> (r: usize)
    requires
        strictly_ascending(texts(names@)),
    ensures
        r <= names@.len(),
        forall|i: int| 0 <= i < r ==> text_before(#[trigger] names@[i]@, name@),
        forall|i: int| r <= i < names@.len() ==> !text_before(#[trigger] names@[i]@, name@),
{
    let mut lo: usize = 0;
    let mut hi: usize = names.len();
    while lo < hi
        invariant
            lo <= hi <= names@.len(),
            strictly_ascending(texts(names@)),
            forall|i: int| 0 <= i < lo ==> text_before(#[trigger] names@[i]@, name@),
            forall|i: int| hi <= i < names@.len() ==> !text_before(#[trigger] names@[i]@, name@),
        decreases hi - lo,
    {
        let mid: usize = lo + (hi - lo) / 2;
        let rank = rank_names(names[mid].as_str(), name);
        let ghost ts = texts(names@);
        if rank == Rank::Before {
            proof {
                assert forall|i: int| 0 <= i < mid + 1 implies text_before(
                    #[trigger] names@[i]@,
                    name@,
                ) by {
                    if i < mid {
                        assert(text_before(ts[i], ts[mid as int]));
                        lemma_text_transitive(ts[i], ts[mid as int], name@);
                    }
                }
            }
            lo = mid + 1;
        } else {
            proof {
                assert forall|i: int| mid <= i < names@.len() implies !text_before(
                    #[trigger] names@[i]@,
                    name@,
                ) by {
                    if i > mid && text_before(names@[i]@, name@) {
                        assert(text_before(ts[mid as int], ts[i]));
                        lemma_text_transitive(ts[mid as int], ts[i], name@);
                    }
                }
            }
            hi = mid;
        }
    }
    lo
}

/// The different names among those found, in ascending order.
pub fn collect_executables(found: &Vec<String>) -> (r: Vec<String>)
    ensures
        strictly_ascending(texts(r@)),
        forall|n: Seq<char>| #[trigger] texts(r@).contains(n) <==> texts(found@).contains(n),
{
    let mut out: Vec<String> = Vec::new();
    let mut i: usize = 0;
    while i < found.len()
        invariant
            i <= found@.len(),
            strictly_ascending(texts(out@)),
            forall|n: Seq<char>|
                texts(out@).contains(n) <==> exists|k: int| 0 <= k < i && #[trigger] found@[k]@ == n,
        decreases found@.len() - i,
    {
        let name = &found[i];
        let at = place_of(&out, name.as_str());
        let ghost before = texts(out@);
        let known = at < out.len() && rank_names(out[at].as_str(), name.as_str()) == Rank::Same;
        if !known {
            proof {
                if at < out@.len() {
                    lemma_text_total(before[at as int], name@);
                }
                assert forall|k: int| at <= k < before.len() implies text_before(
                    name@,
                    #[trigger] before[k],
                ) by {
                    if k > at {
                        assert(text_before(before[at as int], before[k]));
                        lemma_text_transitive(name@, before[at as int], before[k]);
                    }
                }
            }
            let copy = name.clone();
            out.insert(at, copy);
            proof {
                let now = texts(out@);
                assert(now =~= before.insert(at as int, name@));
                assert forall|a: int, b: int| 0 <= a < b < now.len() implies #[trigger] text_before(
                    now[a],
                    now[b],
                ) by {
                    lemma_insert_ascending(before, at as int, name@, a, b);
                }
                assert forall|n: Seq<char>| now.contains(n) <==> before.contains(n) || n == name@ by {
                    lemma_insert_contains(before, at as int, name@, n);
                }
            }
        } else {
            proof {
                assert(before[at as int] == name@);
                assert(before.contains(name@));
            }
        }
        proof {
            assert forall|n: Seq<char>|
                texts(out@).contains(n) <==> exists|k: int|
                    0 <= k < i + 1 && #[trigger] found@[k]@ == n by {
                assert(found@[i as int]@ == name@);
                if exists|k: int| 0 <= k < i + 1 && #[trigger] found@[k]@ == n {
                    let k = choose|k: int| 0 <= k < i + 1 && #[trigger] found@[k]@ == n;
                    if k < i {
                        assert(before.contains(n));
                    }
                }
                if before.contains(n) {
                    let k = choose|k: int| 0 <= k < i && #[trigger] found@[k]@ == n;
                    assert(found@[k]@ == n);
                }
            }
        }
        i += 1;
    }
    proof {
        assert forall|n: Seq<char>| #[trigger] texts(out@).contains(n) <==> texts(found@).contains(
            n,
        ) by {
            if texts(out@).contains(n) {
                let k = choose|k: int| 0 <= k < i && #[trigger] found@[k]@ == n;
                assert(texts(found@)[k] == n);
            }
            if texts(found@).contains(n) {
                let k = choose|k: int| 0 <= k < texts(found@).len() && texts(found@)[k] == n;
                assert(found@[k]@ == n);
            }
        }
    }
    out
}

proof fn lemma_insert_ascending(v: Seq<Seq<char>>, at: int, x: Seq<char>, a: int, b: int)
    requires
        strictly_ascending(v),
        0 <= at <= v.len(),
        forall|i: int| 0 <= i < at ==> text_before(#[trigger] v[i], x),
        forall|i: int| at <= i < v.len() ==> text_before(x, #[trigger] v[i]),
        0 <= a < b <= v.len(),
    ensures
        text_before(v.insert(at, x)[a], v.insert(at, x)[b]),
{
    let w = v.insert(at, x);
    if b < at {
        assert(text_before(v[a], v[b]));
    } else if b == at {
        assert(text_before(v[a], x));
    } else if a < at {
        assert(text_before(v[a], v[b - 1]));
    } else if a == at {
        assert(text_before(x, v[b - 1]));
    } else {
        assert(text_before(v[a - 1], v[b - 1]));
    }
}

proof fn lemma_insert_contains(v: Seq<Seq<char>>, at: int, x: Seq<char>, n: Seq<char>)
    requires
        0 <= at <= v.len(),
    ensures
        v.insert(at, x).contains(n) <==> v.contains(n) || n == x,
{
    let w = v.insert(at, x);
    if v.contains(n) {
        let k = choose|k: int| 0 <= k < v.len() && v[k] == n;
        if k < at {
            assert(w[k] == n);
        } else {
            assert(w[k + 1] == n);
        }
    }
    assert(w[at] == x);
    if w.contains(n) {
        let k = choose|k: int| 0 <= k < w.len() && w[k] == n;
        if k < at {
            assert(v[k] == n);
        } else if k > at {
            assert(v[k - 1] == n);
        }
    }
}

/// The names of applications.
pub open spec fn app_names(apps: Seq<AppInfo>) -> Seq<Seq<char>> {
    apps.map_values(|a: AppInfo| a.name@)
}

/// The first application with a name, where there is one.
pub open spec fn first_named(apps: Seq<AppInfo>, name: Seq<char>) -> Option<AppInfo>
    decreases apps.len(),
{
    if apps.len() == 0 {
        None
    } else {
        match first_named(apps.drop_last(), name) {
            Some(a) => Some(a),
            None => if apps.last().name@ == name {
                Some(apps.last())
            } else {
                None
            },
        }
    }
}

/// There is a first application with a name if and only if there is one at all.
pub proof fn lemma_first_named(apps: Seq<AppInfo>, name: Seq<char>)
    ensures
        first_named(apps, name) is Some <==> app_names(apps).contains(name),
        first_named(apps, name) matches Some(a) ==> a.name@ == name,
    decreases apps.len(),
{
    if apps.len() > 0 {
        let rest = apps.drop_last();
        lemma_first_named(rest, name);
        assert(app_names(apps) =~= app_names(rest).push(apps.last().name@));
        if app_names(rest).contains(name) {
            let k = choose|k: int| 0 <= k < app_names(rest).len() && app_names(rest)[k] == name;
            assert(app_names(apps)[k] == name);
        }
        assert(app_names(apps)[apps.len() - 1] == apps.last().name@);
        if app_names(apps).contains(name) {
            let k = choose|k: int| 0 <= k < app_names(apps).len() && app_names(apps)[k] == name;
            if k < rest.len() {
                assert(app_names(rest)[k] == name);
            }
        }
    }
}

/// The applications found, by ascending name. Of several with one name the first stays:
/// what was found in a directory that takes precedence overrides the rest.
pub fn collect_apps(found: &Vec<AppInfo>) -> (r: Vec<AppInfo>)
    ensures
        strictly_ascending(app_names(r@)),
        forall|n: Seq<char>| #[trigger]
            app_names(r@).contains(n) <==> app_names(found@).contains(n),
        forall|i: int|
            0 <= i < r@.len() ==> first_named(found@, (#[trigger] r@[i]).name@) == Some(r@[i]),
{
    let mut names: Vec<String> = Vec::new();
    let mut out: Vec<AppInfo> = Vec::new();
    let mut i: usize = 0;
    while i < found.len()
        invariant
            i <= found@.len(),
            texts(names@) =~= app_names(out@),
            strictly_ascending(texts(names@)),
            forall|n: Seq<char>|
                texts(names@).contains(n) <==> #[trigger] first_named(found@.take(i as int), n) is Some,
            forall|k: int|
                0 <= k < out@.len() ==> first_named(
                    found@.take(i as int),
                    (#[trigger] out@[k]).name@,
                ) == Some(out@[k]),
        decreases found@.len() - i,
    {
        let app = &found[i];
        let at = place_of(&names, app.name.as_str());
        let ghost before = texts(names@);
        let ghost apps_before = out@;
        let ghost head = found@.take(i as int);
        let known = at < names.len() && rank_names(names[at].as_str(), app.name.as_str())
            == Rank::Same;
        proof {
            assert(found@.take(i + 1).drop_last() =~= head);
            assert(found@.take(i + 1).last() == *app);
            assert(app_names(out@).len() == out@.len());
            assert(before.len() == names@.len());
        }
        if !known {
            proof {
                if at < before.len() {
                    lemma_text_total(before[at as int], app.name@);
                }
                assert forall|k: int| at <= k < before.len() implies text_before(
                    app.name@,
                    #[trigger] before[k],
                ) by {
                    if k > at {
                        assert(text_before(before[at as int], before[k]));
                        lemma_text_transitive(app.name@, before[at as int], before[k]);
                    }
                }
                assert(!before.contains(app.name@)) by {
                    if before.contains(app.name@) {
                        let k = choose|k: int| 0 <= k < before.len() && before[k] == app.name@;
                        lemma_text_irreflexive(app.name@);
                        if k < at {
                            assert(text_before(names@[k]@, app.name@));
                        }
                    }
                }
                assert(first_named(head, app.name@) is None);
            }
            names.insert(at, app.name.clone());
            out.insert(at, app.clone());
            proof {
                let now = texts(names@);
                assert(now =~= before.insert(at as int, app.name@));
                assert(app_names(out@) =~= now);
                assert forall|a: int, b: int| 0 <= a < b < now.len() implies #[trigger] text_before(
                    now[a],
                    now[b],
                ) by {
                    lemma_insert_ascending(before, at as int, app.name@, a, b);
                }
                assert forall|n: Seq<char>| now.contains(n) <==> before.contains(n) || n
                    == app.name@ by {
                    lemma_insert_contains(before, at as int, app.name@, n);
                }
                assert forall|k: int| 0 <= k < out@.len() implies first_named(
                    found@.take(i + 1),
                    (#[trigger] out@[k]).name@,
                ) == Some(out@[k]) by {
                    if k < at {
                        assert(out@[k] == apps_before[k]);
                    } else if k > at {
                        assert(out@[k] == apps_before[k - 1]);
                    }
                }
            }
        } else {
            proof {
                assert(before[at as int] == app.name@);
                assert(before.contains(app.name@));
            }
        }
        proof {
            assert forall|n: Seq<char>|
                texts(names@).contains(n) <==> #[trigger] first_named(found@.take(i + 1), n) is Some by {
                assert(before.contains(n) <==> first_named(head, n) is Some);
            }
        }
        i += 1;
    }
    proof {
        assert(found@.take(i as int) =~= found@);
        assert forall|n: Seq<char>| #[trigger]
            app_names(out@).contains(n) <==> app_names(found@).contains(n) by {
            lemma_first_named(found@, n);
            assert(texts(names@) == app_names(out@));
            assert(texts(names@).contains(n) <==> first_named(found@, n) is Some);
        }
    }
    out
}

/// An application found earlier overrides one of the same name found later.
pub proof fn law_earlier_entry_wins(first: Seq<AppInfo>, later: Seq<AppInfo>, name: Seq<char>)
    requires
        app_names(first).contains(name),
    ensures
        first_named(first + later, name) == first_named(first, name),
        first_named(first, name) is Some,
    decreases later.len(),
{
    lemma_first_named(first, name);
    if later.len() == 0 {
        assert(first + later =~= first);
    } else {
        assert((first + later).drop_last() =~= first + later.drop_last());
        law_earlier_entry_wins(first, later.drop_last(), name);
    }
}

/// The names of a list of applications.
pub fn list_names(apps: &Vec<AppInfo>) -> (r: Vec<String>)
    ensures
        texts(r@) == app_names(apps@),
{
    let mut out: Vec<String> = Vec::new();
    let mut i: usize = 0;
    while i < apps.len()
        invariant
            i <= apps@.len(),
            texts(out@) =~= app_names(apps@).take(i as int),
        decreases apps@.len() - i,
    {
        let ghost before = texts(out@);
        out.push(apps[i].name.clone());
        i += 1;
        proof {
            assert(texts(out@) =~= before.push(app_names(apps@)[i - 1]));
        }
    }
    proof {
        assert(texts(out@) =~= app_names(apps@));
    }
    out
}

/// A path below a directory is the two with one slash between them; below nothing it is
/// itself.
pub proof fn law_path_below(base: Seq<char>, rel: Seq<char>)
    requires
        base.len() > 0,
        base.last() != '/',
    ensures
        below(base, rel) == base + "/"@ + rel,
        below(base + "/"@, rel) == base + "/"@ + rel,
        below(Seq::<char>::empty(), rel) == rel,
{
    reveal_strlit("/");
    assert("/"@ =~= seq!['/']);
    assert((base + "/"@).last() == '/');
    assert(Seq::<char>::empty() + rel =~= rel);
}

/// Desktop entries are looked for in the user's own directory, in the local one and in that
/// of the system, in this order; without a home directory in the last two.
pub proof fn law_app_directories(home: Seq<char>)
    requires
        home.len() > 0,
        home.last() != '/',
    ensures
        app_dirs_of(Some(home)) == seq![
            home + "/.local/share/applications"@,
            "/usr/local/share/applications"@,
            "/usr/share/applications"@,
        ],
        app_dirs_of(None) == seq!["/usr/local/share/applications"@, "/usr/share/applications"@],
{
    reveal_strlit("/.local/share/applications");
    reveal_strlit(".local/share/applications");
    assert(home + seq!['/'] + ".local/share/applications"@ =~= home
        + "/.local/share/applications"@);
    assert(app_dirs_of(Some(home)) =~= seq![
        home + "/.local/share/applications"@,
        "/usr/local/share/applications"@,
        "/usr/share/applications"@,
    ]);
}

/// The history is kept in the cache directory where one is named, else in `.cache` in the home
/// directory, and else nowhere.
pub proof fn law_history_file(cache: Seq<char>, home: Option<Seq<char>>, h: Seq<char>)
    requires
        cache.len() > 0 && cache.last() != '/',
        h.len() > 0 && h.last() != '/',
    ensures
        cache_file_of(Some(cache), home) == Some(cache + "/cce-cloud-apps.json"@),
        cache_file_of(None, Some(h)) == Some(h + "/.cache/cce-cloud-apps.json"@),
        cache_file_of(None, None) is None,
{
    reveal_strlit("/cce-cloud-apps.json");
    reveal_strlit("cce-cloud-apps.json");
    reveal_strlit(".cache");
    reveal_strlit("/.cache/cce-cloud-apps.json");
    assert(cache + seq!['/'] + "cce-cloud-apps.json"@ =~= cache + "/cce-cloud-apps.json"@);
    let c = h + seq!['/'] + ".cache"@;
    assert(c.last() == 'e');
    assert(c + seq!['/'] + "cce-cloud-apps.json"@ =~= h + "/.cache/cce-cloud-apps.json"@);
}

/// The socket names the display, and `wayland-0` where there is none. It lies in the runtime
/// directory of the user, and names the user where it has to lie elsewhere.
pub proof fn law_socket_path(uid: nat, display: Seq<char>)
    ensures
        socket_of(uid, true, Some(display)) == "/run/user/"@ + crate::number::decimal(uid)
            + "/cce-cloud-"@ + display + ".socket"@,
        socket_of(uid, false, Some(display)) == "/tmp/cce-cloud-"@ + crate::number::decimal(uid)
            + "-"@ + display + ".socket"@,
        socket_of(uid, true, None) == socket_of(uid, true, Some("wayland-0"@)),
        socket_of(uid, false, None) == socket_of(uid, false, Some("wayland-0"@)),
        runtime_dir_of(uid) == "/run/user/"@ + crate::number::decimal(uid),
{
}

/// An application is found under its name where no earlier one has the name, and the names of
/// a list are those of its applications, in their order.
pub proof fn law_first_of_a_name(apps: Seq<AppInfo>, i: int)
    requires
        0 <= i < apps.len(),
    ensures
        app_names(apps).len() == apps.len(),
        app_names(apps)[i] == apps[i].name@,
        (forall|j: int| 0 <= j < i ==> (#[trigger] apps[j]).name@ != apps[i].name@) ==> first_named(
            apps,
            apps[i].name@,
        ) == Some(apps[i]),
    decreases apps.len(),
{
    let name = apps[i].name@;
    let head = apps.drop_last();
    if forall|j: int| 0 <= j < i ==> (#[trigger] apps[j]).name@ != name {
        if i < head.len() {
            assert(head[i] == apps[i]);
            assert forall|j: int| 0 <= j < i implies (#[trigger] head[j]).name@ != head[i].name@ by {
                assert(head[j] == apps[j]);
            }
            law_first_of_a_name(head, i);
        } else {
            lemma_none_named(head, name);
        }
    }
}

proof fn lemma_none_named(apps: Seq<AppInfo>, name: Seq<char>)
    requires
        forall|j: int| 0 <= j < apps.len() ==> (#[trigger] apps[j]).name@ != name,
    ensures
        first_named(apps, name) is None,
    decreases apps.len(),
{
    if apps.len() > 0 {
        let head = apps.drop_last();
        assert(apps.last() == apps[apps.len() - 1]);
        assert forall|j: int| 0 <= j < head.len() implies (#[trigger] head[j]).name@ != name by {
            assert(head[j] == apps[j]);
        }
        lemma_none_named(head, name);
    }
}

} // verus!
