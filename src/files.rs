use vstd::prelude::*;
use vstd::string::StrSliceExecFns;
use vstd::string::StringExecFns;

verus! {

/// The pieces of `s` between occurrences of `sep`; an empty `s` gives one empty
/// piece.
pub open spec fn split_spec(s: Seq<char>, sep: char) -> Seq<Seq<char>>
    decreases s.len(),
{
    if s.len() == 0 {
        seq![Seq::empty()]
    } else {
        let init = split_spec(s.drop_last(), sep);
        if s.last() == sep {
            init.push(Seq::empty())
        } else {
            init.update(init.len() - 1, init.last().push(s.last()))
        }
    }
}

proof fn lemma_split_nonempty(s: Seq<char>, sep: char)
    ensures
        split_spec(s, sep).len() >= 1,
    decreases s.len(),
{
    if s.len() > 0 {
        lemma_split_nonempty(s.drop_last(), sep);
    }
}

/// The views of a list of strings.
pub open spec fn views(v: Seq<String>) -> Seq<Seq<char>> {
    v.map_values(|x: String| x@)
}

/// The last `.`-separated piece of a path: what follows its last `.`, or the
/// whole path where it has none.
pub open spec fn extension_spec(path: Seq<char>) -> Seq<char> {
    split_spec(path, '.').last()
}

/// Splits `s` at every occurrence of `sep`.
pub fn split_on(s: &str, sep: char) -> (r: Vec<String>)
    ensures
        views(r@) == split_spec(s@, sep),
{
    let n = s.unicode_len();
    let mut parts: Vec<String> = Vec::new();
    let mut cur = String::new();
    let mut i: usize = 0;
    proof {
        assert(s@.subrange(0, 0) =~= Seq::<char>::empty());
        assert(views(parts@).push(cur@) =~= split_spec(s@.subrange(0, 0), sep));
    }
    while i < n
        invariant
            n == s@.len(),
            i <= n,
            views(parts@).push(cur@) == split_spec(s@.subrange(0, i as int), sep),
        decreases n - i,
    {
        let ghost pre = s@.subrange(0, i as int);
        let ghost post = s@.subrange(0, i + 1);
        assert(post.drop_last() =~= pre);
        assert(post.last() == s@[i as int]);
        let c = s.get_char(i);
        if c == sep {
            let done = cur;
            parts.push(done);
            cur = String::new();
            assert(views(parts@).push(cur@) =~= split_spec(post, sep));
        } else {
            let piece = s.substring_char(i, i + 1);
            assert(piece@ =~= seq![c]);
            let ghost old_cur = cur@;
            let ghost init = split_spec(pre, sep);
            assert(init == views(parts@).push(old_cur));
            cur.append(piece);
            assert(cur@ =~= old_cur.push(c));
            assert(split_spec(post, sep) == init.update(init.len() - 1, init.last().push(c)));
            assert(views(parts@).push(cur@) =~= split_spec(post, sep));
        }
        i = i + 1;
    }
    assert(s@.subrange(0, n as int) =~= s@);
    parts.push(cur);
    assert(views(parts@) =~= split_spec(s@, sep));
    parts
}

/// The extensions accepted where none are given.
pub fn default_extensions() -> (r: Vec<String>)
    ensures
        views(r@) == seq![seq!['p', 'n', 'g'], seq!['j', 'p', 'g'], seq!['j', 'p', 'e', 'g']],
{
    let mut r: Vec<String> = Vec::new();
    r.push(String::from_str("png"));
    r.push(String::from_str("jpg"));
    r.push(String::from_str("jpeg"));
    proof {
        reveal_strlit("png");
        reveal_strlit("jpg");
        reveal_strlit("jpeg");
        assert(r@[0]@ == seq!['p', 'n', 'g']);
        assert(r@[1]@ == seq!['j', 'p', 'g']);
        assert(r@[2]@ == seq!['j', 'p', 'e', 'g']);
        assert(views(r@) =~= seq![seq!['p', 'n', 'g'], seq!['j', 'p', 'g'], seq!['j', 'p', 'e', 'g']]);
    }
    r
}

/// The allowed extensions of a comma-separated list.
pub fn get_extension(extension_str: &str) -> (r: Vec<String>)
    ensures
        views(r@) == split_spec(extension_str@, ','),
{
    let exts = split_on(extension_str, ',');
    if exts.len() == 0 {
        proof {
            lemma_split_nonempty(extension_str@, ',');
        }
        default_extensions()
    } else {
        exts
    }
}

/// Whether the last `.`-separated piece of `path` is exactly one of `allowed`.
pub fn has_allowed_extension(path: &str, allowed: &Vec<String>) -> (r: bool)
    ensures
        r == views(allowed@).contains(extension_spec(path@)),
{
    let parts = split_on(path, '.');
    proof {
        lemma_split_nonempty(path@, '.');
    }
    let ext = &parts[parts.len() - 1];
    assert(ext@ == extension_spec(path@));
    let mut i: usize = 0;
    while i < allowed.len()
        invariant
            ext@ == extension_spec(path@),
            i <= allowed@.len(),
            forall|j: int| 0 <= j < i ==> allowed@[j]@ != ext@,
        decreases allowed@.len() - i,
    {
        if allowed[i] == *ext {
            assert(views(allowed@)[i as int] == ext@);
            return true;
        }
        i = i + 1;
    }
    assert(!views(allowed@).contains(ext@)) by {
        if views(allowed@).contains(ext@) {
            let j = choose|j: int| 0 <= j < views(allowed@).len() && views(allowed@)[j] == ext@;
            assert(allowed@[j]@ == ext@);
        }
    }
    false
}

} // verus!
