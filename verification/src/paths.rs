//! Paths as text.
use crate::text::{
    dec, dec_string, ends_with, has_prefix, has_suffix, split, split_list, starts_with, texts,
};
use vstd::prelude::*;

verus! {

/// A directory and a path below it. An absolute path stands for itself.
pub open spec fn joined(dir: Seq<char>, name: Seq<char>) -> Seq<char> {
    if starts_with(name, "/"@) {
        name
    } else if dir.len() == 0 || ends_with(dir, "/"@) {
        dir + name
    } else {
        dir + "/"@ + name
    }
}

/// A directory and a path below it.
pub fn join_path(dir: &str, name: &str) -> (r: String)
    ensures
        r@ == joined(dir@, name@),
{
    if has_prefix(name, "/") {
        return name.to_owned();
    }
    let mut s = dir.to_owned();
    if !dir.is_empty() && !has_suffix(dir, "/") {
        s.append("/");
    }
    s.append(name);
    s
}

/// The parts that are not empty.
pub open spec fn nonempty_parts(parts: Seq<Seq<char>>) -> Seq<Seq<char>>
    decreases parts.len(),
{
    if parts.len() == 0 {
        Seq::empty()
    } else if parts.last().len() == 0 {
        nonempty_parts(parts.drop_last())
    } else {
        nonempty_parts(parts.drop_last()).push(parts.last())
    }
}

/// The parts of a path between its slashes that are not empty.
pub open spec fn path_segments(path: Seq<char>) -> Seq<Seq<char>> {
    nonempty_parts(split(path, '/'))
}

/// The parts of a path between its slashes that are not empty.
pub fn segment_list(path: &str) -> (r: Vec<String>)
    ensures
        texts(r@) == path_segments(path@),
{
    let parts = split_list(path, '/');
    let ghost all = split(path@, '/');
    let mut out: Vec<String> = Vec::new();
    let mut i: usize = 0;
    assert(all.take(0) =~= Seq::<Seq<char>>::empty());
    assert(texts(out@) =~= Seq::<Seq<char>>::empty());
    while i < parts.len()
        invariant
            i <= parts.len(),
            texts(parts@) == all,
            texts(out@) == nonempty_parts(all.take(i as int)),
        decreases parts.len() - i,
    {
        assert(texts(parts@)[i as int] == parts@[i as int]@);
        assert(all.take(i as int + 1).drop_last() =~= all.take(i as int));
        let ghost done = out@;
        if !parts[i].as_str().is_empty() {
            let p = parts[i].clone();
            out.push(p);
            assert(texts(out@) =~= texts(done).push(p@));
        }
        i = i + 1;
    }
    assert(all.take(all.len() as int) =~= all);
    out
}

/// The user's home directory: what `HOME` says, else `/tmp`.
pub fn home_dir(home: Option<&str>) -> (r: String)
    ensures
        r@ == match home {
            Some(h) => h@,
            None => "/tmp"@,
        },
{
    match home {
        Some(h) => h.to_owned(),
        None => "/tmp".to_owned(),
    }
}

/// The daemon's socket: in the runtime directory where `XDG_RUNTIME_DIR` names
/// one, else in `/tmp`, with the user's number in its name.
pub fn socket_path(runtime_dir: Option<&str>, uid: u32) -> (r: String)
    ensures
        r@ == match runtime_dir {
            Some(d) => joined(d@, "mgd.sock"@),
            None => "/tmp/mgd-"@ + dec(uid as nat) + ".sock"@,
        },
{
    match runtime_dir {
        Some(d) => join_path(d, "mgd.sock"),
        None => {
            let mut s = "/tmp/mgd-".to_owned();
            s.append(dec_string(uid as u64).as_str());
            s.append(".sock");
            s
        },
    }
}

/// A name is put behind a directory with one slash between them. An absolute name
/// stands for itself.
pub proof fn law_joining_paths(dir: Seq<char>, name: Seq<char>)
    ensures
        name.len() > 0 && name[0] == '/' ==> joined(dir, name) == name,
        dir.len() > 0 && dir.last() != '/' && (name.len() == 0 || name[0] != '/') ==> joined(
            dir,
            name,
        ) == dir + "/"@ + name,
        dir.len() > 0 && dir.last() == '/' && (name.len() == 0 || name[0] != '/') ==> joined(
            dir,
            name,
        ) == dir + name,
{
    reveal_strlit("/");
    if name.len() > 0 && name[0] == '/' {
        assert(name.take(1) =~= "/"@);
    }
    if starts_with(name, "/"@) {
        assert(name.take(1)[0] == "/"@[0]);
    }
    if dir.len() > 0 && dir.last() == '/' {
        assert(dir.skip(dir.len() - 1) =~= "/"@);
    }
    if ends_with(dir, "/"@) {
        assert(dir.skip(dir.len() - 1)[0] == "/"@[0]);
    }
}

/// The parts of a path are those between its slashes that are not empty.
pub proof fn law_parts_of_paths(parts: Seq<Seq<char>>)
    ensures
        nonempty_parts(parts) == parts.filter(|p: Seq<char>| p.len() > 0),
    decreases parts.len(),
{
    reveal(Seq::filter);
    if parts.len() > 0 {
        law_parts_of_paths(parts.drop_last());
    }
}

} // verus!
