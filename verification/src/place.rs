//! Where a session is, and whether that place can be trusted: the control
//! file, the directory it stands in, and the files a verb may read.
use vstd::prelude::*;

use crate::text::{
    chars_of, cut, cut_at, decimal, decimal_text, digit_char, same, slice_text, starts_with,
    string_view, trim, trimmed, view_of,
};

verus! {

// -------------------------------------------------------------------- paths

/// A path without the separators, and the steps to where one stands, that end
/// it.
pub open spec fn path_body(p: Seq<char>) -> Seq<char>
    decreases p.len(),
{
    if p.len() > 0 && p.last() == '/' {
        path_body(p.drop_last())
    } else if p.len() > 1 && p.last() == '.' && p[p.len() - 2] == '/' {
        path_body(p.take(p.len() - 2))
    } else {
        p
    }
}

/// Where the last component of a path begins.
pub open spec fn name_start(p: Seq<char>) -> nat
    decreases p.len(),
{
    if p.len() == 0 || p.last() == '/' {
        p.len()
    } else {
        name_start(p.drop_last())
    }
}

/// Where the extension of a name begins, at its dot; a leading dot begins
/// none.
pub open spec fn stem_len(name: Seq<char>) -> nat {
    match last_dot(name) {
        Some(i) => if i > 0 {
            i
        } else {
            name.len()
        },
        None => name.len(),
    }
}

pub open spec fn last_dot(name: Seq<char>) -> Option<nat>
    decreases name.len(),
{
    if name.len() == 0 {
        None
    } else if name.last() == '.' {
        Some((name.len() - 1) as nat)
    } else {
        last_dot(name.drop_last())
    }
}

/// The path with its extension replaced, or added; a path that ends in no
/// file name is left as it is.
pub open spec fn with_extension(p: Seq<char>, extension: Seq<char>) -> Seq<char> {
    let body = path_body(p);
    let start = name_start(body);
    let name = body.skip(start as int);
    if name.len() == 0 || name == "."@ || name == ".."@ {
        p
    } else {
        body.take(start as int) + name.take(stem_len(name) as int) + "."@ + extension
    }
}

/// A name inside a directory.
pub open spec fn inside(dir: Seq<char>, name: Seq<char>) -> Seq<char> {
    if dir.len() == 0 || dir.last() == '/' {
        dir + name
    } else {
        dir + "/"@ + name
    }
}

/// The path with its extension replaced, or added.
fn replace_extension(path: &str, extension: &str) -> (r: String)
    ensures
        r@ == with_extension(path@, extension@),
{
    let p = chars_of(path);
    let ghost body = path_body(p@);
    let mut end: usize = p.len();
    assert(p@.take(end as int) =~= p@);
    while end > 0 && (p[end - 1] == '/' || (end > 1 && p[end - 1] == '.' && p[end - 2] == '/'))
        invariant
            end <= p.len(),
            body == path_body(p@),
            path_body(p@.take(end as int)) == body,
        decreases end,
    {
        let ghost now = p@.take(end as int);
        assert(now.last() == p@[end - 1]);
        if p[end - 1] == '/' {
            assert(now.drop_last() =~= p@.take(end - 1));
            end = end - 1;
        } else {
            assert(now[now.len() - 2] == p@[end - 2]);
            assert(now.take(now.len() - 2) =~= p@.take(end - 2));
            end = end - 2;
        }
    }
    assert(body == p@.take(end as int)) by {
        let now = p@.take(end as int);
        if end > 0 {
            assert(now.last() == p@[end - 1]);
        }
        if end > 1 {
            assert(now[now.len() - 2] == p@[end - 2]);
        }
    }
    let mut start: usize = end;
    assert(body.take(start as int) =~= body);
    while start > 0 && p[start - 1] != '/'
        invariant
            start <= end <= p.len(),
            body == p@.take(end as int),
            name_start(body) == name_start(body.take(start as int)),
        decreases start,
    {
        let ghost now = body.take(start as int);
        assert(now.last() == p@[start - 1]);
        assert(now.drop_last() =~= body.take(start - 1));
        start = start - 1;
    }
    assert(name_start(body) == start) by {
        let now = body.take(start as int);
        if start > 0 {
            assert(now.last() == p@[start - 1]);
        }
    }
    let ghost name = body.skip(start as int);
    assert(name =~= p@.subrange(start as int, end as int));
    let written = slice_text(&p, start, end);
    proof {
        reveal_strlit(".");
        reveal_strlit("..");
    }
    if start == end || same(&written, ".") || same(&written, "..") {
        return path.to_owned();
    }
    let mut dot: usize = end;
    assert(name.take(dot - start) =~= name);
    while dot > start && p[dot - 1] != '.'
        invariant
            start <= dot <= end <= p.len(),
            name == p@.subrange(start as int, end as int),
            last_dot(name) == last_dot(name.take(dot - start)),
        decreases dot,
    {
        let ghost now = name.take(dot - start);
        assert(now.last() == p@[dot - 1]);
        assert(now.drop_last() =~= name.take(dot - start - 1));
        dot = dot - 1;
    }
    let stem: usize = if dot > start + 1 {
        dot - 1
    } else {
        end
    };
    proof {
        let now = name.take(dot - start);
        if dot > start {
            assert(now.last() == p@[dot - 1]);
        }
        assert(stem_len(name) == stem - start);
        assert(p@.take(stem as int) =~= body.take(start as int) + name.take(stem - start));
    }
    let mut out = slice_text(&p, 0, stem);
    assert(p@.subrange(0, stem as int) =~= p@.take(stem as int));
    out.append(".");
    out.append(extension);
    out
}

/// The control file that belongs to a given stream file.
///
/// Derived rather than configured, so that whoever sets only the stream file
/// still gets a drivable session.
pub fn control_file_beside(stream_file: &str) -> (r: String)
    ensures
        r@ == with_extension(stream_file@, "control"@),
{
    replace_extension(stream_file, "control")
}

fn join_path(dir: &str, name: &str) -> (r: String)
    ensures
        r@ == inside(dir@, name@),
{
    let c = chars_of(dir);
    let mut out = dir.to_owned();
    if c.len() > 0 && c[c.len() - 1] != '/' {
        out.append("/");
    }
    out.append(name);
    out
}

// -------------------------------------------------------- the default place

/// Whether a variable says something.
pub open spec fn says(v: Option<Seq<char>>) -> bool {
    v matches Some(t) && trimmed(t).len() > 0
}

/// The directory of one's own that a session is advertised in: per user, and
/// never a shared one. Nothing to go on means no directory rather than a
/// guess.
pub open spec fn session_dir(
    runtime: Option<Seq<char>>,
    local_data: Option<Seq<char>>,
    home: Option<Seq<char>>,
) -> Option<Seq<char>> {
    let own = if local_data is Some { local_data } else { home };
    if says(runtime) {
        Some(inside(runtime->0, "h5i-browser"@))
    } else if says(own) {
        Some(inside(inside(own->0, ".cache"@), "h5i-browser"@))
    } else {
        None
    }
}

pub open spec fn default_file(
    runtime: Option<Seq<char>>,
    local_data: Option<Seq<char>>,
    home: Option<Seq<char>>,
) -> Option<Seq<char>> {
    match session_dir(runtime, local_data, home) {
        Some(dir) => Some(inside(dir, "session.control"@)),
        None => None,
    }
}

fn says_something(v: &str) -> (r: bool)
    ensures
        r == (trimmed(v@).len() > 0),
{
    let t = trim(v);
    let c = chars_of(&t);
    c.len() > 0
}

/// The per-user directory for sessions, from `XDG_RUNTIME_DIR`,
/// `LOCALAPPDATA` and `HOME`.
pub fn default_session_dir(
    runtime: Option<&str>,
    local_data: Option<&str>,
    home: Option<&str>,
) -> (r: Option<String>)
    ensures
        string_view(r) == session_dir(view_of(runtime), view_of(local_data), view_of(home)),
{
    if let Some(dir) = runtime {
        if says_something(dir) {
            return Some(join_path(dir, "h5i-browser"));
        }
    }
    let own = match local_data {
        Some(dir) => Some(dir),
        None => home,
    };
    if let Some(dir) = own {
        if says_something(dir) {
            return Some(join_path(&join_path(dir, ".cache"), "h5i-browser"));
        }
    }
    None
}

/// Where a session advertises itself when nothing else says.
pub fn default_control_file(
    runtime: Option<&str>,
    local_data: Option<&str>,
    home: Option<&str>,
) -> (r: Option<String>)
    ensures
        string_view(r) == default_file(view_of(runtime), view_of(local_data), view_of(home)),
{
    match default_session_dir(runtime, local_data, home) {
        Some(dir) => Some(join_path(&dir, "session.control")),
        None => None,
    }
}

/// The control file that someone named: by a flag, in the environment, or by
/// naming the stream file that it stands beside.
pub open spec fn named_file(
    flag: Option<Seq<char>>,
    variable: Option<Seq<char>>,
    stream_file: Option<Seq<char>>,
) -> Option<Seq<char>> {
    match flag {
        Some(p) => Some(p),
        None => match variable {
            Some(p) => Some(p),
            None => match stream_file {
                Some(s) => Some(with_extension(s, "control"@)),
                None => None,
            },
        },
    }
}

/// Where the control file is, and whether that was chosen by default: the
/// directory of a default has to be private, and a path someone typed is a
/// path someone chose.
#[derive(Debug, PartialEq, Eq)]
pub struct ControlFile {
    pub path: String,
    pub defaulted: bool,
}

pub open spec fn control_view(f: Option<ControlFile>) -> Option<(Seq<char>, bool)> {
    match f {
        Some(c) => Some((c.path@, c.defaulted)),
        None => None,
    }
}

/// The control file: the one that was named, or else the default.
pub open spec fn control_place(
    named: Option<Seq<char>>,
    fallback: Option<Seq<char>>,
) -> Option<(Seq<char>, bool)> {
    match named {
        Some(p) => Some((p, false)),
        None => match fallback {
            Some(p) => Some((p, true)),
            None => None,
        },
    }
}

/// Settles on the control file, for serving a session and for finding one.
pub fn control_file(
    flag: Option<&str>,
    variable: Option<&str>,
    stream_file: Option<&str>,
    fallback: Option<&str>,
) -> (r: Option<ControlFile>)
    ensures
        control_view(r) == control_place(
            named_file(view_of(flag), view_of(variable), view_of(stream_file)),
            view_of(fallback),
        ),
{
    if let Some(p) = flag {
        return Some(ControlFile { path: p.to_owned(), defaulted: false });
    }
    if let Some(p) = variable {
        return Some(ControlFile { path: p.to_owned(), defaulted: false });
    }
    if let Some(s) = stream_file {
        return Some(ControlFile { path: control_file_beside(s), defaulted: false });
    }
    match fallback {
        Some(p) => Some(ControlFile { path: p.to_owned(), defaulted: true }),
        None => None,
    }
}

/// What to say where there is no place to look for a session.
pub fn nowhere_to_look() -> (r: String)
    ensures
        r@
            == "no session to talk to, and no per-user runtime directory to look in. Pass --control-file or --port, or set $XDG_RUNTIME_DIR or $HOME."@,
{
    "no session to talk to, and no per-user runtime directory to look in. Pass --control-file or --port, or set $XDG_RUNTIME_DIR or $HOME.".to_owned()
}

pub open spec fn nothing_listens(path: Seq<char>) -> Seq<char> {
    "no session is listening ("@ + path
        + " does not exist). Open one with `h5i browser open <url>` \u{2014} it holds a page open for these verbs to drive \u{2014} or point at a running one with --control-file, --control-socket or --port."@
}

pub open spec fn not_private(path: Seq<char>, why: Seq<char>) -> Seq<char> {
    "refusing to read a session port from "@ + path + ": "@ + why
        + ". A port number there is enough to point `session type` \u{2014} carrying a substituted credential \u{2014} at somebody else's listener. Pass --control-file or --port to use it anyway."@
}

/// Whether a port may be read from the control file: it has to be there, and
/// the directory of a default has to be private.
///
/// Absence first, and privacy second: a missing directory is not a suspicious
/// one.
pub fn may_read_port(file: &ControlFile, exists: bool, directory: &Result<(), String>) -> (r: Result<
    (),
    String,
>)
    ensures
        match r {
            Ok(_) => exists && (file.defaulted ==> *directory is Ok),
            Err(e) => if !exists {
                e@ == nothing_listens(file.path@)
            } else {
                file.defaulted && (*directory matches Err(why) && e@ == not_private(
                    file.path@,
                    why@,
                ))
            },
        },
{
    if !exists {
        let mut e = "no session is listening (".to_owned();
        e.append(&file.path);
        e.append(
            " does not exist). Open one with `h5i browser open <url>` \u{2014} it holds a page open for these verbs to drive \u{2014} or point at a running one with --control-file, --control-socket or --port.",
        );
        return Err(e);
    }
    if file.defaulted {
        if let Err(why) = directory {
            let mut e = "refusing to read a session port from ".to_owned();
            e.append(&file.path);
            e.append(": ");
            e.append(why);
            e.append(
                ". A port number there is enough to point `session type` \u{2014} carrying a substituted credential \u{2014} at somebody else's listener. Pass --control-file or --port to use it anyway.",
            );
            return Err(e);
        }
    }
    Ok(())
}

// ---------------------------------------------------------------- ownership

/// A number in octal.
pub open spec fn octal(n: nat) -> Seq<char>
    decreases n,
{
    if n < 8 {
        seq![digit_char(n)]
    } else {
        octal(n / 8).push(digit_char(n % 8))
    }
}

fn octal_text(n: u32) -> (r: String)
    ensures
        r@ == octal(n as nat),
    decreases n,
{
    let d: u8 = (n % 8) as u8;
    let c: char = (48u8 + d) as char;
    if n < 8 {
        let mut out = String::new();
        out.push(c);
        assert(out@ =~= octal(n as nat));
        out
    } else {
        let mut out = octal_text(n / 8);
        out.push(c);
        out
    }
}

/// What there is to know of a directory.
#[derive(Debug, Clone, Copy, PartialEq, Eq, Structural)]
pub struct Directory {
    pub is_dir: bool,
    pub owner: u32,
    pub mode: u32,
}

/// Why a directory is not one's own alone.
pub open spec fn shared_because(name: Seq<char>, d: Directory, me: u32) -> Option<Seq<char>> {
    if !d.is_dir {
        Some(name + " is not a directory"@)
    } else if d.owner != me {
        Some(
            name + " is owned by uid "@ + decimal(d.owner as nat) + " and this process is uid "@
                + decimal(me as nat),
        )
    } else if d.mode & 0o022 != 0 {
        Some(
            name + " is writable by group or other (mode "@ + octal((d.mode & 0o777) as nat)
                + ")"@,
        )
    } else {
        None
    }
}

/// Whether a directory is ours alone.
pub fn check_private_dir(name: &str, d: Directory, me: u32) -> (r: Result<(), String>)
    ensures
        match r {
            Ok(_) => shared_because(name@, d, me) is None,
            Err(why) => shared_because(name@, d, me) == Some(why@),
        },
{
    if !d.is_dir {
        let mut e = name.to_owned();
        e.append(" is not a directory");
        return Err(e);
    }
    if d.owner != me {
        let mut e = name.to_owned();
        e.append(" is owned by uid ");
        e.append(&decimal_text(d.owner as u64));
        e.append(" and this process is uid ");
        e.append(&decimal_text(me as u64));
        return Err(e);
    }
    if d.mode & 0o022 != 0 {
        let mut e = name.to_owned();
        e.append(" is writable by group or other (mode ");
        e.append(&octal_text(d.mode & 0o777));
        e.append(")");
        return Err(e);
    }
    Ok(())
}

// ----------------------------------------------------------------- payloads

/// Most that one payload may be: it is read whole and carried through a
/// control message.
pub const MAX_PAYLOAD_BYTES: u64 = 0x400_0000;

/// Splits `target=path`.
pub fn payload_spec(spec: &str) -> (r: Result<(String, String), String>)
    ensures
        match r {
            Ok(p) => cut(spec@, "="@) == Some((p.0@, p.1@)),
            Err(e) => cut(spec@, "="@) is None && e@ == "`--set-file "@ + spec@
                + "` is `target=path`, and this has no `=`"@,
        },
{
    proof {
        reveal_strlit("=");
    }
    match cut_at(spec, "=") {
        Some(p) => Ok(p),
        None => {
            let mut e = "`--set-file ".to_owned();
            e.append(spec);
            e.append("` is `target=path`, and this has no `=`");
            Err(e)
        },
    }
}

pub open spec fn payload_refused(
    target: Seq<char>,
    path: Seq<char>,
    is_file: bool,
    len: u64,
) -> Option<Seq<char>> {
    let head = "`--set-file "@ + target + "`: "@ + path;
    if !is_file {
        Some(
            head
                + " is not a regular file, so it has no bytes to send \u{2014} a device or a pipe is read until it stops, and these do not stop"@,
        )
    } else if len > MAX_PAYLOAD_BYTES {
        Some(
            head + " is "@ + decimal(len as nat) + " bytes, past the "@ + decimal(
                MAX_PAYLOAD_BYTES as nat,
            )
                + " byte limit on one payload. It is read whole, encoded and carried through a control message, so this would cost several times that in memory"@,
        )
    } else {
        None
    }
}

/// Whether a payload may be read: a regular file, and not past the bound.
pub fn check_payload(target: &str, path: &str, is_file: bool, len: u64) -> (r: Result<(), String>)
    ensures
        match r {
            Ok(_) => payload_refused(target@, path@, is_file, len) is None,
            Err(e) => payload_refused(target@, path@, is_file, len) == Some(e@),
        },
{
    let mut e = "`--set-file ".to_owned();
    e.append(target);
    e.append("`: ");
    e.append(path);
    if !is_file {
        e.append(
            " is not a regular file, so it has no bytes to send \u{2014} a device or a pipe is read until it stops, and these do not stop",
        );
        return Err(e);
    }
    if len > MAX_PAYLOAD_BYTES {
        e.append(" is ");
        e.append(&decimal_text(len));
        e.append(" bytes, past the ");
        e.append(&decimal_text(MAX_PAYLOAD_BYTES));
        e.append(
            " byte limit on one payload. It is read whole, encoded and carried through a control message, so this would cost several times that in memory",
        );
        return Err(e);
    }
    Ok(())
}

/// What to say where a payload's file cannot be read.
pub fn unreadable_payload(target: &str, path: &str, why: &str) -> (r: String)
    ensures
        r@ == "`--set-file "@ + target@ + "`: "@ + path@ + " could not be read: "@ + why@,
{
    let mut e = "`--set-file ".to_owned();
    e.append(target);
    e.append("`: ");
    e.append(path);
    e.append(" could not be read: ");
    e.append(why);
    e
}

// --------------------------------------------------------------------- laws

/// The default stands under a directory of the user's own, or there is none.
pub proof fn law_the_default_is_under_ones_own_directory(
    runtime: Option<Seq<char>>,
    local_data: Option<Seq<char>>,
    home: Option<Seq<char>>,
)
    ensures
        match default_file(runtime, local_data, home) {
            Some(path) => {
                ||| says(runtime) && starts_with(path, runtime->0)
                ||| says(local_data) && starts_with(path, local_data->0)
                ||| says(home) && starts_with(path, home->0)
            },
            None => !says(runtime) && (local_data is Some ==> !says(local_data)) && (local_data
                is None ==> !says(home)),
        },
{
    if let Some(dir) = session_dir(runtime, local_data, home) {
        let path = inside(dir, "session.control"@);
        if says(runtime) {
            assert(path.take(runtime->0.len() as int) =~= runtime->0);
        } else if local_data is Some {
            assert(path.take(local_data->0.len() as int) =~= local_data->0);
        } else {
            assert(path.take(home->0.len() as int) =~= home->0);
        }
    }
}

/// A control file that someone named is not second-guessed, however its
/// directory is shared.
pub proof fn law_a_named_file_is_not_second_guessed(
    flag: Option<Seq<char>>,
    variable: Option<Seq<char>>,
    stream_file: Option<Seq<char>>,
    fallback: Option<Seq<char>>,
)
    requires
        flag is Some || variable is Some || stream_file is Some,
    ensures
        control_place(named_file(flag, variable, stream_file), fallback) matches Some(c) && !c.1,
{
}

/// A directory that group or others can write is never taken for private.
pub proof fn law_a_writable_directory_is_refused(name: Seq<char>, d: Directory, me: u32)
    requires
        d.mode & 0o020 != 0 || d.mode & 0o002 != 0,
    ensures
        shared_because(name, d, me) is Some,
{
    let mode = d.mode;
    assert(mode & 0o022 != 0) by (bit_vector)
        requires
            mode & 0o020 != 0 || mode & 0o002 != 0,
    ;
}

proof fn lemma_name_start(dir: Seq<char>, name: Seq<char>)
    requires
        dir.len() == 0 || dir.last() == '/',
        !name.contains('/'),
    ensures
        name_start(dir + name) == dir.len(),
    decreases name.len(),
{
    let all = dir + name;
    if name.len() == 0 {
        assert(all =~= dir);
    } else {
        let front = name.drop_last();
        assert(all.last() == name.last());
        assert(name.contains(name[name.len() - 1]));
        assert(all.drop_last() =~= dir + front);
        assert(!front.contains('/')) by {
            if front.contains('/') {
                let k = choose|k: int| 0 <= k < front.len() && front[k] == '/';
                assert(name[k] == '/');
            }
        }
        lemma_name_start(dir, front);
    }
}

proof fn lemma_last_dot(stem: Seq<char>, ending: Seq<char>)
    requires
        !ending.contains('.'),
    ensures
        last_dot(stem.push('.') + ending) == Some(stem.len()),
        last_dot(ending) is None,
    decreases ending.len(),
{
    let all = stem.push('.') + ending;
    if ending.len() == 0 {
        assert(all =~= stem.push('.'));
    } else {
        let front = ending.drop_last();
        assert(all.last() == ending.last());
        assert(ending.contains(ending[ending.len() - 1]));
        assert(all.drop_last() =~= stem.push('.') + front);
        assert(!front.contains('.')) by {
            if front.contains('.') {
                let k = choose|k: int| 0 <= k < front.len() && front[k] == '.';
                assert(ending[k] == '.');
            }
        }
        lemma_last_dot(stem, front);
    }
}

/// The control file stands beside the stream's under the same name: what
/// stands behind the last dot of the name gives way to `control`, and a name
/// without a dot gets one.
pub proof fn law_where_the_control_file_stands(
    stream: &str,
    dir: Seq<char>,
    stem: Seq<char>,
    ending: Seq<char>,
    r: String,
)
    requires
        call_ensures(control_file_beside, (stream,), r),
        dir.len() == 0 || dir.last() == '/',
        stem.len() > 0,
        !stem.contains('/'),
        !ending.contains('/'),
        !ending.contains('.'),
    ensures
        stream@ == dir + stem + seq!['.'] + ending && (ending.len() > 0 || stem != seq!['.']) ==> r@
            == dir + stem + ".control"@,
        stream@ == dir + stem && !stem.contains('.') ==> r@ == dir + stem + ".control"@,
{
    reveal_strlit(".");
    reveal_strlit("..");
    reveal_strlit("control");
    reveal_strlit(".control");
    assert("."@ + "control"@ =~= ".control"@);
    let p = stream@;
    if p == dir + stem + seq!['.'] + ending && (ending.len() > 0 || stem != seq!['.']) {
        let name = stem.push('.') + ending;
        assert(p =~= dir + name);
        assert(!name.contains('/')) by {
            if name.contains('/') {
                let k = choose|k: int| 0 <= k < name.len() && name[k] == '/';
                if k < stem.len() {
                    assert(stem[k] == '/');
                } else if k > stem.len() {
                    assert(ending[k - stem.len() - 1] == '/');
                }
            }
        }
        lemma_name_start(dir, name);
        lemma_last_dot(stem, ending);
        assert(p.last() == name.last());
        assert(name.contains(name[name.len() - 1]));
        assert(p[p.len() - 2] == name[name.len() - 2]);
        assert(name.contains(name[name.len() - 2]));
        assert(path_body(p) == p);
        assert(p.skip(dir.len() as int) =~= name);
        assert(p.take(dir.len() as int) =~= dir);
        assert(name.take(stem.len() as int) =~= stem);
        assert(name != "."@);
        assert(name != ".."@) by {
            if name == ".."@ {
                assert(name.len() == 2);
                if ending.len() > 0 {
                    assert(ending.last() == name.last());
                    assert(ending.contains(ending[ending.len() - 1]));
                } else {
                    assert(stem =~= seq!['.']) by {
                        assert(name[0] == stem[0]);
                    }
                }
            }
        }
        assert(r@ =~= dir + stem + ".control"@);
    }
    if p == dir + stem && !stem.contains('.') {
        lemma_name_start(dir, stem);
        lemma_last_dot(Seq::empty(), stem);
        assert(p.last() == stem.last());
        assert(stem.contains(stem[stem.len() - 1]));
        assert(path_body(p) == p);
        assert(p.skip(dir.len() as int) =~= stem);
        assert(p.take(dir.len() as int) =~= dir);
        assert(stem.take(stem.len() as int) =~= stem);
        assert(stem != "."@ && stem != ".."@) by {
            assert(stem[0] != '.') by {
                assert(stem.contains(stem[0]));
            }
        }
        assert(r@ =~= dir + stem + ".control"@);
    }
}

/// Without a name the control file is `session.control` in `h5i-browser`, under
/// the runtime directory, or else under `.cache` in the local data directory,
/// or, where none is set, in the home. A directory that is blank is none.
pub proof fn law_where_a_session_is_looked_for(
    runtime: Option<&str>,
    local_data: Option<&str>,
    home: Option<&str>,
    r: Option<String>,
)
    requires
        call_ensures(default_control_file, (runtime, local_data, home), r),
        runtime is Some ==> runtime->Some_0@.len() > 0 && runtime->Some_0@.last() != '/',
        local_data is Some ==> local_data->Some_0@.len() > 0 && local_data->Some_0@.last() != '/',
        home is Some ==> home->Some_0@.len() > 0 && home->Some_0@.last() != '/',
    ensures
        ({
            let own = if local_data is Some {
                local_data
            } else {
                home
            };
            let runs = runtime is Some && trimmed(runtime->Some_0@).len() > 0;
            let owns = own is Some && trimmed(own->Some_0@).len() > 0;
            &&& runs ==> r is Some && r->Some_0@ == runtime->Some_0@
                + "/h5i-browser/session.control"@
            &&& !runs && owns ==> r is Some && r->Some_0@ == own->Some_0@
                + "/.cache/h5i-browser/session.control"@
            &&& !runs && !owns ==> r is None
        }),
{
    reveal_strlit("/");
    reveal_strlit("h5i-browser");
    reveal_strlit("session.control");
    reveal_strlit(".cache");
    reveal_strlit("/h5i-browser/session.control");
    reveal_strlit("/.cache/h5i-browser/session.control");
    if let Some(dir) = runtime {
        let a = inside(dir@, "h5i-browser"@);
        assert(a == dir@ + "/"@ + "h5i-browser"@);
        assert(a.last() == 'r');
        assert(inside(a, "session.control"@) =~= dir@ + "/h5i-browser/session.control"@);
    }
    let own = if local_data is Some {
        local_data
    } else {
        home
    };
    if let Some(dir) = own {
        let a = inside(dir@, ".cache"@);
        assert(a == dir@ + "/"@ + ".cache"@);
        assert(a.last() == 'e');
        let b = inside(a, "h5i-browser"@);
        assert(b == a + "/"@ + "h5i-browser"@);
        assert(b.last() == 'r');
        assert(inside(b, "session.control"@) =~= dir@ + "/.cache/h5i-browser/session.control"@);
    }
}

/// The control file is the one that a flag names, or else the environment, or
/// else the one beside the stream's, or else the default, and only the last is
/// marked as such.
pub proof fn law_which_control_file_is_used(
    flag: Option<&str>,
    variable: Option<&str>,
    stream: Option<&str>,
    fallback: Option<&str>,
    r: Option<ControlFile>,
)
    requires
        call_ensures(control_file, (flag, variable, stream, fallback), r),
    ensures
        flag is Some ==> r is Some && r->Some_0.path@ == flag->Some_0@ && !r->Some_0.defaulted,
        flag is None && variable is Some ==> r is Some && r->Some_0.path@ == variable->Some_0@
            && !r->Some_0.defaulted,
        flag is None && variable is None && stream is Some ==> r is Some && r->Some_0.path@
            == with_extension(stream->Some_0@, "control"@) && !r->Some_0.defaulted,
        flag is None && variable is None && stream is None && fallback is Some ==> r is Some
            && r->Some_0.path@ == fallback->Some_0@ && r->Some_0.defaulted,
        flag is None && variable is None && stream is None && fallback is None ==> r is None,
{
}

/// A directory is private exactly where it is a directory, belongs to whoever
/// runs this, and neither its group nor anyone else may write to it.
pub proof fn law_which_directories_are_private(
    name: &str,
    d: Directory,
    me: u32,
    r: Result<(), String>,
)
    requires
        call_ensures(check_private_dir, (name, d, me), r),
    ensures
        r is Ok <==> d.is_dir && d.owner == me && d.mode & 0o020 == 0 && d.mode & 0o002 == 0,
{
    let m = d.mode;
    assert(m & 0o022 == 0 <==> m & 0o020 == 0 && m & 0o002 == 0) by (bit_vector);
}

/// A port is read from a file that is there, and from the default one only
/// where its directory is private.
pub proof fn law_when_a_port_is_read(
    file: &ControlFile,
    exists: bool,
    directory: &Result<(), String>,
    r: Result<(), String>,
)
    requires
        call_ensures(may_read_port, (file, exists, directory), r),
    ensures
        r is Ok <==> exists && (!file.defaulted || *directory is Ok),
{
}

/// A payload is a target and a path around the first equals sign, and it is
/// taken where the path is a file of at most 64 mebibytes.
pub proof fn law_which_payloads_are_taken(
    target: &str,
    path: &str,
    is_file: bool,
    len: u64,
    r: Result<(), String>,
    spec: &str,
    p: Result<(String, String), String>,
)
    requires
        call_ensures(check_payload, (target, path, is_file, len), r),
        call_ensures(payload_spec, (spec,), p),
    ensures
        r is Ok <==> is_file && len <= 64 * 1024 * 1024,
        p is Ok <==> spec@.contains('='),
        p matches Ok(parts) ==> spec@ == parts.0@ + "="@ + parts.1@ && !parts.0@.contains('='),
{
    reveal_strlit("=");
    assert("="@ =~= seq!['=']);
    crate::text::law_a_cut_is_made_at_the_first(spec@, "="@);
    if let Ok(parts) = p {
        let a = parts.0@;
        assert((a + "="@ + parts.1@)[a.len() as int] == '=');
        assert(spec@.contains(spec@[a.len() as int]));
        if a.contains('=') {
            let k = choose|k: int| 0 <= k < a.len() && a[k] == '=';
            assert((a + "="@ + parts.1@)[k] == '=');
            assert(spec@.subrange(k, k + 1) =~= "="@);
        }
    } else if spec@.contains('=') {
        let k = choose|k: int| 0 <= k < spec@.len() && spec@[k] == '=';
        assert(spec@.subrange(k, k + 1) =~= "="@);
    }
}

} // verus!
