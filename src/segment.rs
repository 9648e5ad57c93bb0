//! Splitting an HFS path on `:` and escaping each segment for use as a POSIX
//! path component.
use vstd::prelude::*;

verus! {

/// The HFS directory separator.
pub open spec fn is_hfs_sep(c: char) -> bool {
    c == ':'
}

/// The segments of `s` between `:` separators, in order. Empty segments are
/// kept, so there is always one more segment than there are separators.
pub open spec fn split_hfs(s: Seq<char>) -> Seq<Seq<char>>
    decreases s.len(),
{
    if s.len() == 0 {
        seq![Seq::<char>::empty()]
    } else {
        let prev = split_hfs(s.drop_last());
        if is_hfs_sep(s.last()) {
            prev.push(Seq::<char>::empty())
        } else {
            prev.update(prev.len() - 1, prev.last().push(s.last()))
        }
    }
}

/// The character sequences held by a list of strings.
pub open spec fn string_views(v: Seq<String>) -> Seq<Seq<char>> {
    v.map_values(|x: String| x@)
}

/// There is always at least one segment, the first being the volume name.
pub proof fn lemma_split_nonempty(s: Seq<char>)
    ensures
        split_hfs(s).len() >= 1,
    decreases s.len(),
{
    if s.len() > 0 {
        lemma_split_nonempty(s.drop_last());
    }
}

/// A segment with every `/` turned into `:`, the POSIX rendering of a
/// slash inside an HFS name.
pub open spec fn escape(s: Seq<char>) -> Seq<char> {
    s.map_values(|c: char| if c == '/' { ':' } else { c })
}

/// A path without `:` is a single segment: the whole path.
pub proof fn lemma_split_without_separator(s: Seq<char>)
    requires
        !s.contains(':'),
    ensures
        split_hfs(s) == seq![s],
    decreases s.len(),
{
    if s.len() > 0 {
        let init = s.drop_last();
        assert(s[s.len() - 1] == s.last());
        assert forall|k: int| 0 <= k < init.len() implies init[k] != ':' by {
            assert(init[k] == s[k]);
        }
        lemma_split_without_separator(init);
        assert(init.push(s.last()) =~= s);
        assert(seq![init].update(0, s) =~= seq![s]);
    } else {
        assert(s =~= Seq::<char>::empty());
    }
}

/// Escaping keeps the segment's length, puts a `:` exactly where each `/`
/// stood, keeps every other character, and leaves no `/` behind.
pub proof fn lemma_escape_positions(s: Seq<char>)
    ensures
        escape(s).len() == s.len(),
        forall|i: int| 0 <= i < s.len() && s[i] == '/' ==> escape(s)[i] == ':',
        forall|i: int| 0 <= i < s.len() && s[i] != '/' ==> escape(s)[i] == s[i],
        !escape(s).contains('/'),
{
}

/// Splits `path` on every `:`, keeping empty segments.
pub fn split_segments(path: &str) -> (r: Vec<String>)
    ensures
        string_views(r@) == split_hfs(path@),
{
    let n = path.unicode_len();
    let mut segs: Vec<String> = Vec::new();
    let mut start: usize = 0;
    let mut i: usize = 0;
    assert(string_views(segs@) =~= Seq::<Seq<char>>::empty());
    assert(path@.subrange(0, 0) =~= Seq::<char>::empty());
    assert(string_views(segs@).push(path@.subrange(0, 0)) =~= split_hfs(path@.subrange(0, 0)));
    while i < n
        invariant
            n == path@.len(),
            start <= i <= n,
            string_views(segs@).push(path@.subrange(start as int, i as int)) == split_hfs(
                path@.subrange(0, i as int),
            ),
        decreases n - i,
    {
        let c = path.get_char(i);
        let ghost prefix = path@.subrange(0, i + 1);
        assert(prefix.drop_last() =~= path@.subrange(0, i as int));
        if c == ':' {
            let seg = String::from_str(path.substring_char(start, i));
            segs.push(seg);
            start = i + 1;
            assert(string_views(segs@) =~= split_hfs(path@.subrange(0, i as int)));
            assert(path@.subrange(start as int, i + 1) =~= Seq::<char>::empty());
        } else {
            assert(path@.subrange(start as int, i + 1) =~= path@.subrange(start as int, i as int).push(c));
            assert(string_views(segs@).push(path@.subrange(start as int, i + 1)) =~= split_hfs(prefix));
        }
        i = i + 1;
    }
    let seg = String::from_str(path.substring_char(start, n));
    segs.push(seg);
    assert(path@.subrange(0, n as int) =~= path@);
    assert(string_views(segs@) =~= split_hfs(path@));
    segs
}

/// Replaces every `/` in `seg` by `:`.
pub fn escape_segment(seg: &str) -> (r: String)
    ensures
        r@ == escape(seg@),
{
    let n = seg.unicode_len();
    let mut out = String::new();
    let mut start: usize = 0;
    let mut i: usize = 0;
    while i < n
        invariant
            n == seg@.len(),
            start <= i <= n,
            out@ == escape(seg@.subrange(0, start as int)),
            forall|k: int| start <= k < i ==> seg@[k] != '/',
        decreases n - i,
    {
        let c = seg.get_char(i);
        if c == '/' {
            let run = seg.substring_char(start, i);
            out.append(run);
            out.append(":");
            proof {
                reveal_strlit(":");
                assert(escape(seg@.subrange(0, i + 1)) =~= escape(seg@.subrange(0, start as int))
                    + seg@.subrange(start as int, i as int) + ":"@);
            }
            start = i + 1;
        }
        i = i + 1;
    }
    let run = seg.substring_char(start, n);
    out.append(run);
    assert(seg@.subrange(0, n as int) =~= seg@);
    assert(escape(seg@) =~= escape(seg@.subrange(0, start as int)) + seg@.subrange(start as int, n as int));
    out
}

} // verus!
