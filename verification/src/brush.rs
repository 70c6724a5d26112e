//! The decisions of a sanitizing pseudo-shell that accepts `sh -c '<program> ...'`
//! invocations: splitting the command line, finding the program's file name,
//! deciding whether the program is allowed, and checking its arguments against
//! its required and blocked arguments.
//!
//! Finding files (the `PATH` search, resolving symlinks), reading the per-program
//! configuration and executing the program stand outside this library; the
//! results of those steps are handed to the functions here.
use crate::text::{chars_eq, chars_of, has_prefix, push_chars, push_str, split_chars, split_on, string_from_chars, string_of};
use vstd::prelude::*;

verus! {

/// Why an invocation is refused.
#[derive(Clone, Debug)]
pub enum BrushError {
    /// The invocation does not have exactly three arguments.
    ArgCount { found: usize },
    /// The first argument is not `sh`.
    FirstArg { found: String },
    /// The second argument is not `-c`.
    SecondArg { found: String },
    /// The shell input is malformed (an unterminated quote or a trailing backslash).
    ShellSyntax { input: String },
    /// The shell input names no program.
    NoProgram,
    /// The requested program's path has no file name.
    FileName { path: String },
    /// The program was not found in the allowed search paths.
    NotFound { program: String },
    /// There is no allowing symlink for the program.
    NotAllowed { program: String },
    /// The allowing symlink resolves to another file than the program found.
    Mismatch { symlink: String, program: String, verified: String, resolved: String },
    /// Required arguments that are not in their positions.
    MissingRequiredArgs { program: String, missing: Vec<String> },
    /// Blocked arguments that were given.
    BlockedArgs { program: String, found: Vec<String> },
}

/// What `shlex::split` makes of a shell input: its words, or `None` when the
/// input is malformed (it ends inside a quote or after a backslash).
pub uninterp spec fn shlex_split(input: Seq<char>) -> Option<Seq<Seq<char>>>;

/// `shlex::split`: the words of a shell input by POSIX shell rules, or `None`
/// when the input is malformed. The contract only names the result.
#[verifier::external_body]
fn split_shell_words(input: &str) -> (r: Option<Vec<String>>)
    ensures
        match r {
            Some(v) => shlex_split(input@) matches Some(w) && v@.len() == w.len() && forall|i: int|
                0 <= i < v@.len() ==> #[trigger] v@[i]@ == w[i],
            None => shlex_split(input@) is None,
        },
{
    shlex::split(input)
}

/// The texts of a sequence of strings.
pub open spec fn texts(v: Seq<String>) -> Seq<Seq<char>> {
    v.map_values(|s: String| s@)
}

/// Splits the words of the shell input into the program and its arguments.
pub fn program_from_words(words: Vec<String>) -> (r: Result<(String, Vec<String>), BrushError>)
    ensures
        words@.len() == 0 ==> r matches Err(BrushError::NoProgram),
        words@.len() > 0 ==> (r matches Ok((p, a)) && p@ == words@[0]@ && texts(a@) == texts(words@).drop_first()),
{
    if words.len() == 0 {
        return Err(BrushError::NoProgram);
    }
    let mut rest: Vec<String> = Vec::new();
    let mut i: usize = 1;
    while i < words.len()
        invariant
            1 <= i <= words@.len(),
            rest@ == words@.subrange(1, i as int),
        decreases words@.len() - i,
    {
        let w = words[i].clone();
        rest.push(w);
        assert(rest@ =~= words@.subrange(1, i + 1));
        i = i + 1;
    }
    assert(rest@ =~= words@.drop_first());
    assert(texts(rest@) =~= texts(words@).drop_first());
    Ok((words[0].clone(), rest))
}

/// Checks the `sh -c '...'` form and splits the third argument into the
/// program and its arguments by POSIX shell rules.
pub fn parse_args(args: Vec<String>) -> (r: Result<(String, Vec<String>), BrushError>)
    ensures
        args@.len() != 3 ==> (r matches Err(BrushError::ArgCount { found }) && found == args@.len()),
        args@.len() == 3 && args@[0]@ != "sh"@ ==> (r matches Err(BrushError::FirstArg { found })
            && found@ == args@[0]@),
        args@.len() == 3 && args@[0]@ == "sh"@ && args@[1]@ != "-c"@ ==> (r matches Err(
            BrushError::SecondArg { found },
        ) && found@ == args@[1]@),
        args@.len() == 3 && args@[0]@ == "sh"@ && args@[1]@ == "-c"@ && shlex_split(args@[2]@) is None
            ==> (r matches Err(BrushError::ShellSyntax { input }) && input@ == args@[2]@),
        args@.len() == 3 && args@[0]@ == "sh"@ && args@[1]@ == "-c"@ && shlex_split(args@[2]@) is Some
            && shlex_split(args@[2]@)->0.len() == 0 ==> r matches Err(BrushError::NoProgram),
        args@.len() == 3 && args@[0]@ == "sh"@ && args@[1]@ == "-c"@ && shlex_split(args@[2]@) is Some
            && shlex_split(args@[2]@)->0.len() > 0 ==> (r matches Ok((p, a)) && p@ == shlex_split(args@[2]@)->0[0]
            && texts(a@) == shlex_split(args@[2]@)->0.drop_first()),
{
    if args.len() != 3 {
        return Err(BrushError::ArgCount { found: args.len() });
    }
    let sh = chars_of("sh");
    let a0 = chars_of(args[0].as_str());
    if !chars_eq(a0.as_slice(), sh.as_slice()) {
        return Err(BrushError::FirstArg { found: args[0].clone() });
    }
    let dash_c = chars_of("-c");
    let a1 = chars_of(args[1].as_str());
    if !chars_eq(a1.as_slice(), dash_c.as_slice()) {
        return Err(BrushError::SecondArg { found: args[1].clone() });
    }
    match split_shell_words(args[2].as_str()) {
        None => Err(BrushError::ShellSyntax { input: args[2].clone() }),
        Some(words) => {
            let ghost w = shlex_split(args@[2]@)->0;
            assert(texts(words@) =~= w);
            program_from_words(words)
        },
    }
}

/// The last component of a list of path pieces that is neither empty nor `.`.
pub open spec fn last_named(pieces: Seq<Seq<char>>) -> Option<Seq<char>>
    decreases pieces.len(),
{
    if pieces.len() == 0 {
        None
    } else if pieces.last() == Seq::<char>::empty() || pieces.last() == seq!['.'] {
        last_named(pieces.drop_last())
    } else {
        Some(pieces.last())
    }
}

/// The file name of a path (what `Path::file_name` gives): its last component,
/// ignoring repeated and trailing `/` and `.` components, unless that is `..`
/// or there is none.
pub open spec fn file_name_of(path: Seq<char>) -> Option<Seq<char>> {
    match last_named(split_on(path, '/')) {
        Some(c) => if c == seq!['.', '.'] { None } else { Some(c) },
        None => None,
    }
}

/// The file name of `path`.
pub fn filename(path: &str) -> (r: Result<String, BrushError>)
    ensures
        match file_name_of(path@) {
            Some(n) => r matches Ok(s) && s@ == n,
            None => r matches Err(BrushError::FileName { path: p }) && p@ == path@,
        },
{
    let v = chars_of(path);
    let pieces = split_chars(v.as_slice(), '/');
    let ghost all = split_on(v@, '/');
    let mut i: usize = pieces.len();
    let dot = ['.'];
    let dotdot = ['.', '.'];
    assert(dot@ =~= seq!['.']);
    assert(dotdot@ =~= seq!['.', '.']);
    assert(all.take(pieces@.len() as int) =~= all);
    while i > 0
        invariant
            dot@ == seq!['.'],
            dotdot@ == seq!['.', '.'],
            i <= pieces@.len(),
            pieces@.len() == all.len(),
            all == split_on(path@, '/'),
            forall|k: int| 0 <= k < pieces@.len() ==> #[trigger] pieces@[k]@ == all[k],
            last_named(all.take(i as int)) == last_named(all),
        decreases i,
    {
        let piece = &pieces[i - 1];
        assert(all.take(i as int).last() == all[i - 1]);
        assert(all.take(i as int).drop_last() =~= all.take(i - 1));
        if piece.len() != 0 && !chars_eq(piece.as_slice(), &dot) {
            if chars_eq(piece.as_slice(), &dotdot) {
                return Err(BrushError::FileName { path: string_of(path) });
            }
            return Ok(string_from_chars(piece.as_slice()));
        }
        assert(piece@.len() == 0 ==> piece@ =~= Seq::<char>::empty());
        i = i - 1;
    }
    assert(all.take(0) =~= Seq::<Seq<char>>::empty());
    Err(BrushError::FileName { path: string_of(path) })
}

/// A directory path joined with a file name (what pushing the name onto a
/// `PathBuf` of the directory gives): a `/` goes between them unless the
/// directory is empty or already ends with one.
pub open spec fn join_path(dir: Seq<char>, name: Seq<char>) -> Seq<char> {
    if dir.len() == 0 || dir.last() == '/' {
        dir + name
    } else {
        dir + seq!['/'] + name
    }
}

/// Where the symlink that allows a program would be: the allowed-programs
/// directory joined with the requested program's file name. Returns the file
/// name and that path.
pub fn allowed_program_path(allowed_programs_dir: &str, program: &str) -> (r: Result<(String, String), BrushError>)
    ensures
        match file_name_of(program@) {
            Some(n) => r matches Ok((name, path)) && name@ == n && path@ == join_path(allowed_programs_dir@, n),
            None => r matches Err(BrushError::FileName { path: p }) && p@ == program@,
        },
{
    let name = filename(program)?;
    let dir = chars_of(allowed_programs_dir);
    let mut path = string_from_chars(dir.as_slice());
    if dir.len() != 0 && dir[dir.len() - 1] != '/' {
        push_chars(&mut path, &['/']);
    }
    push_str(&mut path, name.as_str());
    assert(path@ =~= join_path(allowed_programs_dir@, name@));
    Ok((name, path))
}

/// The pieces of a path that `Path` compares besides its root and a leading `.`:
/// the `/`-separated pieces that are neither empty nor `.`.
pub open spec fn named_pieces(pieces: Seq<Seq<char>>) -> Seq<Seq<char>>
    decreases pieces.len(),
{
    if pieces.len() == 0 {
        Seq::empty()
    } else if pieces.last() == Seq::<char>::empty() || pieces.last() == seq!['.'] {
        named_pieces(pieces.drop_last())
    } else {
        named_pieces(pieces.drop_last()).push(pieces.last())
    }
}

/// What `Path` equality compares: whether the path is absolute, whether a
/// relative path starts with a `.` component, and the remaining components.
pub open spec fn path_components(p: Seq<char>) -> (bool, bool, Seq<Seq<char>>) {
    let absolute = p.len() > 0 && p[0] == '/';
    let cur_dir = !absolute && p.len() > 0 && p[0] == '.' && (p.len() == 1 || p[1] == '/');
    (absolute, cur_dir, named_pieces(split_on(p, '/')))
}

fn named_pieces_of(p: &[char]) -> (r: Vec<Vec<char>>)
    ensures
        r@.len() == named_pieces(split_on(p@, '/')).len(),
        forall|i: int| 0 <= i < r@.len() ==> #[trigger] r@[i]@ == named_pieces(split_on(p@, '/'))[i],
{
    let pieces = split_chars(p, '/');
    let ghost all = split_on(p@, '/');
    let mut r: Vec<Vec<char>> = Vec::new();
    let mut i: usize = 0;
    let dot = ['.'];
    assert(dot@ =~= seq!['.']);
    while i < pieces.len()
        invariant
            i <= pieces@.len(),
            pieces@.len() == all.len(),
            all == split_on(p@, '/'),
            dot@ == seq!['.'],
            forall|k: int| 0 <= k < pieces@.len() ==> #[trigger] pieces@[k]@ == all[k],
            r@.len() == named_pieces(all.take(i as int)).len(),
            forall|k: int| 0 <= k < r@.len() ==> #[trigger] r@[k]@ == named_pieces(all.take(i as int))[k],
        decreases pieces@.len() - i,
    {
        assert(all.take(i + 1).last() == all[i as int]);
        assert(all.take(i + 1).drop_last() =~= all.take(i as int));
        let piece = &pieces[i];
        assert(piece@.len() == 0 ==> piece@ =~= Seq::<char>::empty());
        if piece.len() != 0 && !chars_eq(piece.as_slice(), &dot) {
            r.push(piece.clone());
        }
        i = i + 1;
    }
    assert(all.take(pieces@.len() as int) =~= all);
    r
}

/// Whether two paths are equal as `Path`s (component by component).
pub fn same_path(a: &str, b: &str) -> (r: bool)
    ensures
        r == (path_components(a@) == path_components(b@)),
        r ==> file_name_of(a@) == file_name_of(b@),
{
    let va = chars_of(a);
    let vb = chars_of(b);
    let abs_a = va.len() > 0 && va[0] == '/';
    let abs_b = vb.len() > 0 && vb[0] == '/';
    let cur_a = !abs_a && va.len() > 0 && va[0] == '.' && (va.len() == 1 || va[1] == '/');
    let cur_b = !abs_b && vb.len() > 0 && vb[0] == '.' && (vb.len() == 1 || vb[1] == '/');
    assert(abs_a == path_components(a@).0);
    assert(abs_b == path_components(b@).0);
    assert(cur_a == path_components(a@).1);
    assert(cur_b == path_components(b@).1);
    if abs_a != abs_b || cur_a != cur_b {
        return false;
    }
    let pa = named_pieces_of(va.as_slice());
    let pb = named_pieces_of(vb.as_slice());
    let ghost na = named_pieces(split_on(a@, '/'));
    let ghost nb = named_pieces(split_on(b@, '/'));
    if pa.len() != pb.len() {
        assert(na.len() != nb.len());
        return false;
    }
    let mut i: usize = 0;
    while i < pa.len()
        invariant
            i <= pa@.len(),
            pa@.len() == pb@.len(),
            pa@.len() == na.len(),
            pb@.len() == nb.len(),
            forall|k: int| 0 <= k < pa@.len() ==> #[trigger] pa@[k]@ == na[k],
            forall|k: int| 0 <= k < pb@.len() ==> #[trigger] pb@[k]@ == nb[k],
            forall|k: int| 0 <= k < i ==> na[k] == nb[k],
            na == named_pieces(split_on(a@, '/')),
            nb == named_pieces(split_on(b@, '/')),
        decreases pa@.len() - i,
    {
        if !chars_eq(pa[i].as_slice(), pb[i].as_slice()) {
            assert(na[i as int] != nb[i as int]);
            return false;
        }
        i = i + 1;
    }
    assert(na =~= nb);
    proof {
        lemma_same_path_same_file_name(a@, b@);
    }
    true
}


/// Decides, once both lookups are done, whether the requested program may run:
/// `resolved` is the program found in the allowed search paths, `verified` what
/// the allowing symlink resolves to (`None` where a lookup failed). Returns the
/// program's path and the name to run it under.
pub fn confirm_program(name: &str, allowed_path: &str, resolved: Option<&str>, verified: Option<&str>) -> (r: Result<(String, String), BrushError>)
    ensures
        resolved is None ==> (r matches Err(BrushError::NotFound { program }) && program@ == name@),
        resolved is Some && verified is None ==> (r matches Err(BrushError::NotAllowed { program }) && program@ == name@),
        (resolved matches Some(rp) && verified matches Some(vp) && path_components(rp@) != path_components(vp@)) ==> (r matches Err(
            BrushError::Mismatch { symlink, program, verified: v, resolved: rr },
        ) && symlink@ == allowed_path@ && program@ == name@ && v@ == verified->0@ && rr@ == resolved->0@),
        (resolved matches Some(rp) && verified matches Some(vp) && path_components(rp@) == path_components(vp@)) ==> (r matches Ok((path, arg0)) && path@ == verified->0@ && arg0@ == name@),
        r is Ok ==> resolved is Some && verified is Some && file_name_of(resolved->0@) == file_name_of(verified->0@),
{
    let rp = match resolved {
        Some(p) => p,
        None => {
            return Err(BrushError::NotFound { program: string_of(name) });
        },
    };
    let vp = match verified {
        Some(p) => p,
        None => {
            return Err(BrushError::NotAllowed { program: string_of(name) });
        },
    };
    if !same_path(rp, vp) {
        return Err(BrushError::Mismatch {
            symlink: string_of(allowed_path),
            program: string_of(name),
            verified: string_of(vp),
            resolved: string_of(rp),
        });
    }
    Ok((string_of(vp), string_of(name)))
}

/// The required and blocked arguments configured for a program.
#[derive(Clone, Debug)]
pub struct ProgramSettings {
    /// Arguments that must appear, each at its own position.
    pub required_args: Option<Vec<String>>,
    /// Arguments that must not appear.
    pub blocked_args: Option<Vec<String>>,
}

/// The texts of an optional list (an absent list is empty).
pub open spec fn texts_or_empty(v: Option<Vec<String>>) -> Seq<Seq<char>> {
    match v {
        Some(v) => texts(v@),
        None => Seq::empty(),
    }
}

/// Every position at which `a` is required holds `a` among the arguments.
pub open spec fn in_position(required: Seq<Seq<char>>, args: Seq<Seq<char>>, a: Seq<char>) -> bool {
    forall|i: int| 0 <= i < required.len() && #[trigger] required[i] == a ==> i < args.len() && args[i] == a
}

/// The arguments start with the required arguments, each at its own position.
pub open spec fn required_in_place(required: Seq<Seq<char>>, args: Seq<Seq<char>>) -> bool {
    required.len() <= args.len() && forall|i: int| 0 <= i < required.len() ==> #[trigger] args[i] == required[i]
}

/// `a` is a required argument that is absent from at least one of its positions.
pub open spec fn missing_required(required: Seq<Seq<char>>, args: Seq<Seq<char>>, a: Seq<char>) -> bool {
    required.contains(a) && !in_position(required, args, a)
}

/// `a` is a blocked argument that was given.
pub open spec fn given_blocked(blocked: Seq<Seq<char>>, args: Seq<Seq<char>>, a: Seq<char>) -> bool {
    args.contains(a) && blocked.contains(a)
}

/// `v` lists exactly the texts that satisfy `p`, each once.
pub open spec fn lists_exactly(v: Seq<Seq<char>>, p: spec_fn(Seq<char>) -> bool) -> bool {
    &&& forall|a: Seq<char>| #[trigger] v.contains(a) <==> p(a)
    &&& forall|i: int, j: int| 0 <= i < j < v.len() ==> v[i] != v[j]
}

fn contains_string(v: &Vec<String>, a: &String) -> (r: bool)
    ensures
        r == texts(v@).contains(a@),
{
    let mut i: usize = 0;
    while i < v.len()
        invariant
            i <= v@.len(),
            forall|k: int| 0 <= k < i ==> v@[k]@ != a@,
        decreases v@.len() - i,
    {
        if v[i] == *a {
            assert(texts(v@)[i as int] == a@);
            return true;
        }
        i = i + 1;
    }
    assert forall|k: int| 0 <= k < texts(v@).len() implies texts(v@)[k] != a@ by {
        assert(v@[k]@ != a@);
    }
    false
}

fn empty_strings() -> (v: Vec<String>)
    ensures
        v@.len() == 0,
{
    Vec::new()
}

/// The required arguments that are missing from their positions, each once.
fn missing_required_args(required: &Vec<String>, args: &Vec<String>) -> (m: Vec<String>)
    ensures
        lists_exactly(texts(m@), |a: Seq<char>| missing_required(texts(required@), texts(args@), a)),
{
    let ghost req = texts(required@);
    let ghost arg = texts(args@);
    let mut missing: Vec<String> = Vec::new();
    let mut j: usize = 0;
    while j < required.len()
        invariant
            j <= required@.len(),
            req == texts(required@),
            arg == texts(args@),
            forall|a: Seq<char>| #[trigger] texts(missing@).contains(a) <==> (req.take(j as int).contains(a)
                && !in_position(req, arg, a)),
            forall|x: int, y: int| 0 <= x < y < texts(missing@).len() ==> texts(missing@)[x] != texts(missing@)[y],
        decreases required@.len() - j,
    {
        let a = &required[j];
        let mut matched = true;
        let mut i: usize = 0;
        while i < required.len()
            invariant
                i <= required@.len(),
                j < required@.len(),
                a@ == req[j as int],
                req == texts(required@),
                arg == texts(args@),
                matched == forall|k: int| 0 <= k < i && #[trigger] req[k] == a@ ==> k < arg.len() && arg[k] == a@,
            decreases required@.len() - i,
        {
            assert(req[i as int] == required@[i as int]@);
            if required[i] == *a {
                if i >= args.len() || args[i] != *a {
                    assert(i < arg.len() ==> arg[i as int] == args@[i as int]@);
                    matched = false;
                } else {
                    assert(arg[i as int] == a@);
                }
            }
            i = i + 1;
        }
        assert(matched == in_position(req, arg, a@));
        let ghost before = texts(missing@);
        let already = contains_string(&missing, a);
        if !matched && !already {
            missing.push(a.clone());
            assert(texts(missing@) =~= before.push(a@));
        }
        proof {
            let now = texts(missing@);
            let t1 = req.take(j + 1);
            assert(t1 =~= req.take(j as int).push(a@));
            assert(t1[j as int] == a@);
            assert(t1.contains(a@));
            assert forall|x: Seq<char>| before.contains(x) implies now.contains(x) by {
                let k = choose|k: int| 0 <= k < before.len() && #[trigger] before[k] == x;
                assert(now[k] == x);
            }
            assert forall|x: Seq<char>| req.take(j as int).contains(x) implies t1.contains(x) by {
                let k = choose|k: int| 0 <= k < req.take(j as int).len() && #[trigger] req.take(j as int)[k] == x;
                assert(t1[k] == x);
            }
            assert forall|x: Seq<char>| #[trigger] now.contains(x) <==> (t1.contains(x) && !in_position(req, arg, x)) by {
                if x == a@ {
                    if !in_position(req, arg, x) {
                        if already {
                            assert(before.contains(x));
                        } else {
                            assert(now[now.len() - 1] == x);
                        }
                        assert(now.contains(x));
                    }
                } else {
                    if t1.contains(x) {
                        let k = choose|k: int| 0 <= k < t1.len() && #[trigger] t1[k] == x;
                        assert(req.take(j as int)[k] == x);
                        assert(req.take(j as int).contains(x));
                    }
                    if now.contains(x) {
                        let k = choose|k: int| 0 <= k < now.len() && #[trigger] now[k] == x;
                        assert(before[k] == x);
                        assert(before.contains(x));
                    }
                }
            }
            assert forall|x: int, y: int| 0 <= x < y < now.len() implies now[x] != now[y] by {
                if y == now.len() - 1 && now.len() > before.len() {
                    assert(before[x] == now[x]);
                    assert(before.contains(now[x]));
                }
            }
        }
        j = j + 1;
    }
    assert(req.take(required@.len() as int) =~= req);
    missing
}

/// The given arguments that are blocked, each once.
fn given_blocked_args(blocked: &Vec<String>, args: &Vec<String>) -> (f: Vec<String>)
    ensures
        lists_exactly(texts(f@), |a: Seq<char>| given_blocked(texts(blocked@), texts(args@), a)),
{
    let ghost blk = texts(blocked@);
    let ghost arg = texts(args@);
    let mut found: Vec<String> = Vec::new();
    let mut j: usize = 0;
    while j < args.len()
        invariant
            j <= args@.len(),
            blk == texts(blocked@),
            arg == texts(args@),
            forall|a: Seq<char>| #[trigger] texts(found@).contains(a) <==> (arg.take(j as int).contains(a)
                && blk.contains(a)),
            forall|x: int, y: int| 0 <= x < y < texts(found@).len() ==> texts(found@)[x] != texts(found@)[y],
        decreases args@.len() - j,
    {
        let a = &args[j];
        let ghost before = texts(found@);
        let is_blocked = contains_string(blocked, a);
        let already = contains_string(&found, a);
        if is_blocked && !already {
            found.push(a.clone());
            assert(texts(found@) =~= before.push(a@));
        }
        proof {
            let now = texts(found@);
            let t1 = arg.take(j + 1);
            assert(t1 =~= arg.take(j as int).push(a@));
            assert(t1[j as int] == a@);
            assert(t1.contains(a@));
            assert forall|x: Seq<char>| before.contains(x) implies now.contains(x) by {
                let k = choose|k: int| 0 <= k < before.len() && #[trigger] before[k] == x;
                assert(now[k] == x);
            }
            assert forall|x: Seq<char>| arg.take(j as int).contains(x) implies t1.contains(x) by {
                let k = choose|k: int| 0 <= k < arg.take(j as int).len() && #[trigger] arg.take(j as int)[k] == x;
                assert(t1[k] == x);
            }
            assert forall|x: Seq<char>| #[trigger] now.contains(x) <==> (t1.contains(x) && blk.contains(x)) by {
                if x == a@ {
                    if blk.contains(x) {
                        if already {
                            assert(before.contains(x));
                        } else {
                            assert(now[now.len() - 1] == x);
                        }
                        assert(now.contains(x));
                    }
                } else {
                    if t1.contains(x) {
                        let k = choose|k: int| 0 <= k < t1.len() && #[trigger] t1[k] == x;
                        assert(arg.take(j as int)[k] == x);
                        assert(arg.take(j as int).contains(x));
                    }
                    if now.contains(x) {
                        let k = choose|k: int| 0 <= k < now.len() && #[trigger] now[k] == x;
                        assert(before[k] == x);
                        assert(before.contains(x));
                    }
                }
            }
            assert forall|x: int, y: int| 0 <= x < y < now.len() implies now[x] != now[y] by {
                if y == now.len() - 1 && now.len() > before.len() {
                    assert(before[x] == now[x]);
                    assert(before.contains(now[x]));
                }
            }
        }
        j = j + 1;
    }
    assert(arg.take(args@.len() as int) =~= arg);
    found
}

/// Checks a program's arguments against its settings (`None` when the program
/// has no configuration file, and then every argument list passes): the
/// required arguments must appear in positional order, each at its own
/// position, and no blocked argument may be given. Missing required arguments
/// are reported before blocked ones.
pub fn verify_args(settings: Option<&ProgramSettings>, arg0: &str, args: &Vec<String>) -> (r: Result<(), BrushError>)
    ensures
        settings is None ==> r is Ok,
        settings matches Some(s) ==> {
            let req = texts_or_empty(s.required_args);
            let blk = texts_or_empty(s.blocked_args);
            let arg = texts(args@);
            let any_missing = exists|a: Seq<char>| #[trigger] missing_required(req, arg, a);
            let any_blocked = exists|a: Seq<char>| #[trigger] given_blocked(blk, arg, a);
            &&& any_missing ==> (r matches Err(BrushError::MissingRequiredArgs { program, missing })
                && program@ == arg0@ && lists_exactly(texts(missing@), |a: Seq<char>| missing_required(req, arg, a)))
            &&& !any_missing && any_blocked ==> (r matches Err(BrushError::BlockedArgs { program, found })
                && program@ == arg0@ && lists_exactly(texts(found@), |a: Seq<char>| given_blocked(blk, arg, a)))
            &&& !any_missing && !any_blocked ==> r is Ok
            &&& r is Ok <==> required_in_place(req, arg) && !any_blocked
            &&& (exists|i: int| 0 <= i < arg.len() && blk.contains(#[trigger] arg[i])) ==> r is Err
        },
{
    let s = match settings {
        None => {
            return Ok(());
        },
        Some(s) => s,
    };
    let none = empty_strings();
    let required = match &s.required_args {
        Some(v) => v,
        None => &none,
    };
    assert(texts(required@) == texts_or_empty(s.required_args)) by {
        if s.required_args is None {
            assert(texts(required@) =~= Seq::<Seq<char>>::empty());
        }
    }
    let missing = missing_required_args(required, args);
    if missing.len() > 0 {
        assert(texts(missing@).contains(texts(missing@)[0]));
        proof {
            lemma_missing_iff_out_of_place(texts(required@), texts(args@));
        }
        return Err(BrushError::MissingRequiredArgs { program: string_of(arg0), missing });
    }
    assert forall|a: Seq<char>| !#[trigger] missing_required(texts(required@), texts(args@), a) by {
        assert(!texts(missing@).contains(a));
    }
    proof {
        lemma_missing_iff_out_of_place(texts(required@), texts(args@));
    }
    let blocked = match &s.blocked_args {
        Some(v) => v,
        None => &none,
    };
    assert(texts(blocked@) == texts_or_empty(s.blocked_args)) by {
        if s.blocked_args is None {
            assert(texts(blocked@) =~= Seq::<Seq<char>>::empty());
        }
    }
    let found = given_blocked_args(blocked, args);
    if found.len() > 0 {
        assert(texts(found@).contains(texts(found@)[0]));
        return Err(BrushError::BlockedArgs { program: string_of(arg0), found });
    }
    assert forall|a: Seq<char>| !#[trigger] given_blocked(texts(blocked@), texts(args@), a) by {
        assert(!texts(found@).contains(a));
    }
    assert forall|i: int| 0 <= i < texts(args@).len() implies !texts(blocked@).contains(#[trigger] texts(args@)[i]) by {
        let arg = texts(args@);
        assert(arg.contains(arg[i]));
        assert(!given_blocked(texts(blocked@), arg, arg[i]));
    }
    Ok(())
}


/// Some required argument is missing exactly when the arguments do not start
/// with the required arguments, each at its own position.
pub proof fn lemma_missing_iff_out_of_place(required: Seq<Seq<char>>, args: Seq<Seq<char>>)
    ensures
        (exists|a: Seq<char>| #[trigger] missing_required(required, args, a)) <==> !required_in_place(required, args),
{
    if !required_in_place(required, args) {
        let i: int = if required.len() > args.len() {
            args.len() as int
        } else {
            choose|i: int| 0 <= i < required.len() && #[trigger] args[i] != required[i]
        };
        let a = required[i];
        assert(required.contains(a));
        assert(!in_position(required, args, a));
        assert(missing_required(required, args, a));
    }
    if exists|a: Seq<char>| #[trigger] missing_required(required, args, a) {
        let a = choose|a: Seq<char>| #[trigger] missing_required(required, args, a);
        let i = choose|i: int| 0 <= i < required.len() && #[trigger] required[i] == a && !(i < args.len() && args[i] == a);
        assert(!required_in_place(required, args));
    }
}

/// Arguments that start with the required arguments, each in its own position,
/// miss none of them.
pub proof fn lemma_required_in_place_pass(required: Seq<Seq<char>>, args: Seq<Seq<char>>)
    requires
        required_in_place(required, args),
    ensures
        forall|a: Seq<char>| !#[trigger] missing_required(required, args, a),
{
    lemma_missing_iff_out_of_place(required, args);
}

/// A required argument is missing whenever no arguments are given.
pub proof fn lemma_no_arguments_miss_required(required: Seq<Seq<char>>, a: Seq<char>)
    requires
        required.contains(a),
    ensures
        missing_required(required, Seq::empty(), a),
{
    let i = choose|i: int| 0 <= i < required.len() && required[i] == a;
    assert(required[i] == a);
}

/// A required argument that appears twice must stand at both of its positions.
pub proof fn lemma_repeated_required_needs_both(required: Seq<Seq<char>>, args: Seq<Seq<char>>, i: int, j: int)
    requires
        0 <= i < j < required.len(),
        required[i] == required[j],
        j >= args.len() || args[j] != required[j],
    ensures
        missing_required(required, args, required[i]),
{
    assert(required.contains(required[i]));
    assert(required[j] == required[i]);
}

/// Appending a text without the separator extends the last piece.
proof fn lemma_split_append_plain(s: Seq<char>, t: Seq<char>, sep: char)
    requires
        !t.contains(sep),
    ensures
        split_on(s + t, sep) == split_on(s, sep).update(
            split_on(s, sep).len() - 1,
            split_on(s, sep).last() + t,
        ),
    decreases t.len(),
{
    crate::text::lemma_split_nonempty(s, sep);
    if t.len() == 0 {
        assert(s + t =~= s);
        assert(split_on(s, sep).last() + t =~= split_on(s, sep).last());
        assert(split_on(s, sep).update(split_on(s, sep).len() - 1, split_on(s, sep).last()) =~= split_on(s, sep));
    } else {
        let t0 = t.drop_last();
        assert(!t0.contains(sep)) by {
            if t0.contains(sep) {
                let k = choose|k: int| 0 <= k < t0.len() && t0[k] == sep;
                assert(t[k] == sep);
            }
        }
        assert(t[t.len() - 1] != sep);
        lemma_split_append_plain(s, t0, sep);
        assert((s + t).drop_last() =~= s + t0);
        assert((s + t).last() == t.last());
        crate::text::lemma_split_nonempty(s + t0, sep);
        let prev = split_on(s + t0, sep);
        assert(prev.last() == split_on(s, sep).last() + t0);
        assert(split_on(s + t, sep) =~= prev.update(prev.len() - 1, prev.last().push(t.last())));
        assert(split_on(s, sep).last() + t =~= (split_on(s, sep).last() + t0).push(t.last()));
        assert(split_on(s + t, sep) =~= split_on(s, sep).update(split_on(s, sep).len() - 1, split_on(s, sep).last() + t));
    }
}

/// The symlink path that allows a program has that program's file name: the
/// file name of a directory joined with a proper file name is that name.
pub proof fn lemma_join_path_file_name(dir: Seq<char>, name: Seq<char>)
    requires
        name.len() > 0,
        !name.contains('/'),
        name != seq!['.'],
        name != seq!['.', '.'],
    ensures
        file_name_of(join_path(dir, name)) == Some(name),
{
    let base = if dir.len() == 0 || dir.last() == '/' { dir } else { dir + seq!['/'] };
    assert(join_path(dir, name) =~= base + name);
    // the last piece of `base` is empty
    if dir.len() == 0 {
        assert(split_on(base, '/') == seq![Seq::<char>::empty()]);
    } else if dir.last() == '/' {
        assert(base.drop_last() =~= dir.drop_last());
    } else {
        assert(base.drop_last() =~= dir);
        assert(base.last() == '/');
    }
    crate::text::lemma_split_nonempty(base, '/');
    assert(split_on(base, '/').last() == Seq::<char>::empty());
    lemma_split_append_plain(base, name, '/');
    let pieces = split_on(base + name, '/');
    assert(pieces.last() =~= name);
}

/// The last named component of a list of path pieces is the last of its named
/// components.
proof fn lemma_last_named_is_last_piece(p: Seq<Seq<char>>)
    ensures
        last_named(p) == (if named_pieces(p).len() == 0 {
            None::<Seq<char>>
        } else {
            Some(named_pieces(p).last())
        }),
    decreases p.len(),
{
    if p.len() > 0 {
        lemma_last_named_is_last_piece(p.drop_last());
    }
}

/// Paths that are equal as paths have the same file name: equality of paths
/// compares every component, the last one included.
pub proof fn lemma_same_path_same_file_name(a: Seq<char>, b: Seq<char>)
    requires
        path_components(a) == path_components(b),
    ensures
        file_name_of(a) == file_name_of(b),
{
    lemma_last_named_is_last_piece(split_on(a, '/'));
    lemma_last_named_is_last_piece(split_on(b, '/'));
}

/// Two differently named files of one directory are different paths, so a
/// program found as one of them is never confirmed by a symlink that leads to
/// the other.
pub proof fn lemma_sibling_files_differ(dir: Seq<char>, x: Seq<char>, y: Seq<char>)
    requires
        x.len() > 0,
        !x.contains('/'),
        x != seq!['.'],
        x != seq!['.', '.'],
        y.len() > 0,
        !y.contains('/'),
        y != seq!['.'],
        y != seq!['.', '.'],
        x != y,
    ensures
        path_components(join_path(dir, x)) != path_components(join_path(dir, y)),
{
    lemma_join_path_file_name(dir, x);
    lemma_join_path_file_name(dir, y);
    if path_components(join_path(dir, x)) == path_components(join_path(dir, y)) {
        lemma_same_path_same_file_name(join_path(dir, x), join_path(dir, y));
    }
}

/// A blocked argument refuses the arguments wherever it stands among them, the
/// first position included.
pub proof fn lemma_blocked_anywhere_refused(blocked: Seq<Seq<char>>, args: Seq<Seq<char>>, i: int)
    requires
        0 <= i < args.len(),
        blocked.contains(args[i]),
    ensures
        exists|a: Seq<char>| #[trigger] given_blocked(blocked, args, a),
        given_blocked(blocked, args, args[i]),
{
    assert(args.contains(args[i]));
    assert(given_blocked(blocked, args, args[i]));
}

} // verus!
