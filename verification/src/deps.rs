//! The shared libraries a binary needs, as `lddtree` lists them, and the
//! sorted list of files the VM fetches.
use vstd::prelude::*;

use crate::nyx::views;
use crate::text::{char_views, chars_of, lines, lossy_utf8, split_lines, string_of, trim_by, trim_chars, utf8_lossy};

verus! {

/// `s` holds the separator `=>` at position `i`.
pub open spec fn arrow_at(s: Seq<char>, i: int) -> bool {
    0 <= i && i + 1 < s.len() && s[i] == '=' && s[i + 1] == '>'
}

/// `s` holds the separator exactly once, at `i`.
pub open spec fn single_arrow_at(s: Seq<char>, i: int) -> bool {
    arrow_at(s, i) && forall|j: int| #[trigger] arrow_at(s, j) ==> j == i
}

/// A dependency line of `lddtree`: when the line splits at `=>` into exactly
/// two parts (the separator cannot overlap itself, so it then occurs once),
/// the trimmed name and the trimmed path.
pub open spec fn lddtree_entry(line: Seq<char>) -> Option<(Seq<char>, Seq<char>)> {
    if exists|i: int| single_arrow_at(line, i) {
        let i = choose|i: int| single_arrow_at(line, i);
        Some((trim_by(line.take(i), false), trim_by(line.skip(i + 2), false)))
    } else {
        None
    }
}

/// The entries of the lines that are dependency lines, in order.
pub open spec fn lddtree_entries(ls: Seq<Seq<char>>) -> Seq<(Seq<char>, Seq<char>)>
    decreases ls.len(),
{
    if ls.len() == 0 {
        Seq::empty()
    } else {
        lddtree_entries(ls.drop_last()) + match lddtree_entry(ls.last()) {
            Some(e) => seq![e],
            None => Seq::empty(),
        }
    }
}

/// All lines but the first (which names the binary itself).
pub open spec fn after_first(ls: Seq<Seq<char>>) -> Seq<Seq<char>> {
    if ls.len() == 0 {
        ls
    } else {
        ls.drop_first()
    }
}

/// A shared library: its name and where it lies on the host.
pub struct Dependency {
    pub name: String,
    pub path: String,
}

impl Dependency {
    pub open spec fn entry(&self) -> (Seq<char>, Seq<char>) {
        (self.name@, self.path@)
    }
}

fn find_single_arrow(line: &Vec<char>) -> (r: Option<usize>)
    ensures
        r matches Some(i) ==> single_arrow_at(line@, i as int),
        r is None ==> !(exists|i: int| single_arrow_at(line@, i)),
{
    let n = line.len();
    let mut first: Option<usize> = None;
    let mut i: usize = 0;
    let limit = if n > 0 {
        n - 1
    } else {
        0
    };
    while i < limit
        invariant
            n == line@.len(),
            limit == if n > 0 { n - 1 } else { 0 },
            first matches Some(f) ==> arrow_at(line@, f as int) && f < i && (forall|j: int| 0 <= j < i && #[trigger] arrow_at(line@, j) ==> j == f),
            first is None ==> (forall|j: int| 0 <= j < i ==> !#[trigger] arrow_at(line@, j)),
        decreases n - i,
    {
        if line[i] == '=' && line[i + 1] == '>' {
            if let Some(f) = first {
                assert(arrow_at(line@, i as int));
                assert(!(exists|k: int| single_arrow_at(line@, k))) by {
                    if exists|k: int| single_arrow_at(line@, k) {
                        let k = choose|k: int| single_arrow_at(line@, k);
                        assert(arrow_at(line@, f as int));
                    }
                }
                return None;
            }
            first = Some(i);
        }
        i = i + 1;
    }
    assert forall|j: int| j >= i implies !#[trigger] arrow_at(line@, j) by {}
    first
}

/// The dependencies listed in the output of `lddtree`: every line after the
/// first that splits at `=>` into exactly two parts gives its trimmed name
/// and trimmed path.
pub fn lddtree_dependencies(output: &[u8]) -> (r: Vec<Dependency>)
    ensures
        r@.map_values(|d: Dependency| d.entry()) == lddtree_entries(after_first(lines(lossy_utf8(output@)))),
{
    let text = utf8_lossy(output);
    let cs = chars_of(text.as_str());
    let ls = split_lines(&cs);
    let ghost all = char_views(ls@);
    let ghost rest = after_first(all);
    let mut deps: Vec<Dependency> = Vec::new();
    if ls.len() == 0 {
        assert(deps@.map_values(|d: Dependency| d.entry()) =~= lddtree_entries(rest));
        return deps;
    }
    let mut k: usize = 1;
    assert(rest.take(0) =~= Seq::<Seq<char>>::empty());
    while k < ls.len()
        invariant
            1 <= k <= ls@.len(),
            all == char_views(ls@),
            rest == all.drop_first(),
            deps@.map_values(|d: Dependency| d.entry()) == lddtree_entries(rest.take(k - 1)),
        decreases ls@.len() - k,
    {
        let line = &ls[k];
        assert(rest[k - 1] == line@);
        assert(rest.take(k as int).drop_last() =~= rest.take(k - 1));
        let ghost before = deps@;
        match find_single_arrow(line) {
            Some(i) => {
                let mut left: Vec<char> = Vec::new();
                let mut j: usize = 0;
                while j < i
                    invariant
                        i < line@.len(),
                        j <= i,
                        left@ == line@.take(j as int),
                    decreases i - j,
                {
                    left.push(line[j]);
                    assert(line@.take(j + 1) =~= line@.take(j as int).push(line@[j as int]));
                    j = j + 1;
                }
                assert(arrow_at(line@, i as int));
                let mut right: Vec<char> = Vec::new();
                let mut j: usize = i + 2;
                assert(line@.skip(i + 2).take(0) =~= Seq::<char>::empty());
                while j < line.len()
                    invariant
                        i + 2 <= j <= line@.len(),
                        right@ == line@.skip(i + 2).take(j - (i + 2)),
                    decreases line@.len() - j,
                {
                    right.push(line[j]);
                    assert(line@.skip(i + 2).take(j + 1 - (i + 2)) =~= line@.skip(i + 2).take(
                        j - (i + 2),
                    ).push(line@[j as int]));
                    j = j + 1;
                }
                assert(line@.skip(i + 2).take(line@.len() - (i + 2)) =~= line@.skip(i + 2));
                let name = string_of(trim_chars(left.as_slice(), false).as_slice());
                let path = string_of(trim_chars(right.as_slice(), false).as_slice());
                assert(lddtree_entry(line@) == Some((name@, path@)));
                deps.push(Dependency { name, path });
                assert(deps@.map_values(|d: Dependency| d.entry()) =~= before.map_values(
                    |d: Dependency| d.entry(),
                ).push((name@, path@)));
            },
            None => {
                assert(lddtree_entry(line@) is None);
            },
        }
        k = k + 1;
    }
    assert(rest.take(ls@.len() - 1) =~= rest);
    deps
}

/// Strict lexicographic order of character sequences by code point, which is
/// the order of `String`s (byte order of their UTF-8).
pub open spec fn chars_less(a: Seq<char>, b: Seq<char>) -> bool
    decreases a.len(),
{
    if a.len() == 0 {
        b.len() > 0
    } else if b.len() == 0 {
        false
    } else if a[0] != b[0] {
        (a[0] as int) < (b[0] as int)
    } else {
        chars_less(a.drop_first(), b.drop_first())
    }
}

proof fn lemma_less_irreflexive(a: Seq<char>)
    ensures
        !chars_less(a, a),
    decreases a.len(),
{
    if a.len() > 0 {
        lemma_less_irreflexive(a.drop_first());
    }
}

proof fn lemma_less_transitive(a: Seq<char>, b: Seq<char>, c: Seq<char>)
    requires
        chars_less(a, b),
        chars_less(b, c),
    ensures
        chars_less(a, c),
    decreases a.len(),
{
    if a.len() > 0 && b.len() > 0 && c.len() > 0 {
        if a[0] == b[0] && b[0] == c[0] {
            lemma_less_transitive(a.drop_first(), b.drop_first(), c.drop_first());
        }
    }
}

proof fn lemma_less_total(a: Seq<char>, b: Seq<char>)
    requires
        a != b,
    ensures
        chars_less(a, b) || chars_less(b, a),
    decreases a.len(),
{
    if a.len() > 0 && b.len() > 0 && a[0] == b[0] {
        if a.drop_first() == b.drop_first() {
            assert(a =~= seq![a[0]] + a.drop_first());
            assert(b =~= seq![b[0]] + b.drop_first());
        }
        lemma_less_total(a.drop_first(), b.drop_first());
    } else if a.len() == 0 && b.len() == 0 {
        assert(a =~= b);
    } else if a.len() > 0 && b.len() > 0 {
    }
}

fn less(a: &Vec<char>, b: &Vec<char>) -> (r: bool)
    ensures
        r == chars_less(a@, b@),
{
    let mut i: usize = 0;
    assert(a@.skip(0) =~= a@ && b@.skip(0) =~= b@);
    while i < a.len() && i < b.len()
        invariant
            i <= a@.len(),
            i <= b@.len(),
            a@.take(i as int) == b@.take(i as int),
            chars_less(a@, b@) == chars_less(a@.skip(i as int), b@.skip(i as int)),
        decreases a@.len() - i,
    {
        if a[i] != b[i] {
            assert(a@.skip(i as int)[0] == a@[i as int]);
            assert(b@.skip(i as int)[0] == b@[i as int]);
            return a[i] < b[i];
        }
        assert(a@.skip(i as int).drop_first() =~= a@.skip(i + 1));
        assert(b@.skip(i as int).drop_first() =~= b@.skip(i + 1));
        assert(a@.take(i + 1) =~= a@.take(i as int).push(a@[i as int]));
        assert(b@.take(i + 1) =~= b@.take(i as int).push(b@[i as int]));
        i = i + 1;
    }
    i < b.len()
}

fn same(a: &Vec<char>, b: &Vec<char>) -> (r: bool)
    ensures
        r == (a@ == b@),
{
    if a.len() != b.len() {
        return false;
    }
    let mut i: usize = 0;
    while i < a.len()
        invariant
            a@.len() == b@.len(),
            i <= a@.len(),
            forall|k: int| 0 <= k < i ==> a@[k] == b@[k],
        decreases a@.len() - i,
    {
        if a[i] != b[i] {
            return false;
        }
        i = i + 1;
    }
    assert(a@ =~= b@);
    true
}

/// Strictly increasing: sorted and free of duplicates.
pub open spec fn strictly_sorted(s: Seq<Seq<char>>) -> bool {
    forall|i: int, j: int| 0 <= i < j < s.len() ==> chars_less(#[trigger] s[i], #[trigger] s[j])
}

/// `names` sorted with duplicates removed, as `sort` followed by `dedup`
/// leaves a vector of strings.
pub fn sorted_unique(names: &[String]) -> (r: Vec<String>)
    ensures
        strictly_sorted(views(r@)),
        forall|x: Seq<char>| #[trigger] views(r@).contains(x) <==> views(names@).contains(x),
{
    let ghost input = views(names@);
    let mut out: Vec<String> = Vec::new();
    let mut keys: Vec<Vec<char>> = Vec::new();
    let mut i: usize = 0;
    while i < names.len()
        invariant
            i <= names@.len(),
            input == views(names@),
            keys@.len() == out@.len(),
            forall|k: int| 0 <= k < keys@.len() ==> #[trigger] keys@[k]@ == out@[k]@,
            strictly_sorted(views(out@)),
            forall|x: Seq<char>| #[trigger] views(out@).contains(x) <==> input.take(
                i as int,
            ).contains(x),
        decreases names@.len() - i,
    {
        let name = &names[i];
        let key = chars_of(name.as_str());
        let ghost old_out = views(out@);
        let mut p: usize = 0;
        while p < keys.len() && less(&keys[p], &key)
            invariant
                p <= keys@.len(),
                forall|k: int| 0 <= k < p ==> chars_less(#[trigger] keys@[k]@, key@),
            decreases keys@.len() - p,
        {
            p = p + 1;
        }
        assert(input.take(i + 1) =~= input.take(i as int).push(name@));
        if p < keys.len() && same(&keys[p], &key) {
            // Already present.
            assert(old_out[p as int] == name@);
            assert forall|x: Seq<char>| views(out@).contains(x) <==> input.take(
                i + 1,
            ).contains(x) by {
                if x == name@ {
                    assert(views(out@)[p as int] == x);
                }
                if input.take(i + 1).contains(x) && x != name@ {
                    let j = choose|j: int| 0 <= j < i + 1 && #[trigger] input.take(i + 1)[j] == x;
                    assert(input.take(i as int)[j] == x);
                }
            }
        } else {
            proof {
                if p < keys@.len() {
                    lemma_less_total(keys@[p as int]@, key@);
                }
            }
            out.insert(p, name.clone());
            keys.insert(p, key);
            let ghost new_out = views(out@);
            assert(new_out =~= old_out.insert(p as int, name@));
            assert forall|a: int, b: int| 0 <= a < b < new_out.len() implies chars_less(
                #[trigger] new_out[a],
                #[trigger] new_out[b],
            ) by {
                if b < p {
                    assert(new_out[a] == old_out[a] && new_out[b] == old_out[b]);
                } else if b == p {
                    assert(new_out[a] == keys@[a]@);
                } else if a > p {
                    assert(new_out[a] == old_out[a - 1] && new_out[b] == old_out[b - 1]);
                } else if a == p {
                    assert(new_out[b] == old_out[b - 1]);
                    if b - 1 > p {
                        assert(chars_less(old_out[p as int], old_out[b - 1]));
                        lemma_less_transitive(key@, old_out[p as int], old_out[b - 1]);
                    }
                } else {
                    assert(new_out[a] == old_out[a] && new_out[b] == old_out[b - 1]);
                }
            }
            assert forall|x: Seq<char>| new_out.contains(x) <==> input.take(i + 1).contains(x) by {
                if x == name@ {
                    assert(new_out[p as int] == x);
                    assert(input.take(i + 1)[i as int] == x);
                }
                if new_out.contains(x) && x != name@ {
                    let j = choose|j: int| 0 <= j < new_out.len() && #[trigger] new_out[j] == x;
                    if j < p {
                        assert(old_out[j] == x);
                    } else {
                        assert(old_out[j - 1] == x);
                    }
                }
                if old_out.contains(x) {
                    let j = choose|j: int| 0 <= j < old_out.len() && #[trigger] old_out[j] == x;
                    if j < p {
                        assert(new_out[j] == x);
                    } else {
                        assert(new_out[j + 1] == x);
                    }
                }
                if input.take(i + 1).contains(x) && x != name@ {
                    let j = choose|j: int| 0 <= j < i + 1 && #[trigger] input.take(i + 1)[j] == x;
                    assert(input.take(i as int)[j] == x);
                }
                if input.take(i as int).contains(x) {
                    let j = choose|j: int| 0 <= j < i && #[trigger] input.take(i as int)[j] == x;
                    assert(input.take(i + 1)[j] == x);
                }
            }
            assert forall|k: int| 0 <= k < keys@.len() implies #[trigger] keys@[k]@ == out@[k]@ by {
                if k < p {
                } else if k > p {
                }
            }
        }
        i = i + 1;
    }
    assert(input.take(names@.len() as int) =~= input);
    out
}

/// The names of the dependencies, in order.
pub open spec fn dependency_names(deps: Seq<Dependency>) -> Seq<Seq<char>> {
    deps.map_values(|d: Dependency| d.name@)
}

/// The files of a share directory: the binaries, their shared libraries and
/// the crash handler, each name once, in sorted order.
pub fn share_file_names(
    binary_names: &[String],
    dependencies: &[Dependency],
    crash_handler_name: &String,
) -> (r: Vec<String>)
    ensures
        strictly_sorted(views(r@)),
        forall|x: Seq<char>|
            #[trigger] views(r@).contains(x) <==> (views(binary_names@).contains(x)
                || dependency_names(dependencies@).contains(x) || x == crash_handler_name@),
{
    let ghost all = views(binary_names@) + dependency_names(dependencies@) + seq![crash_handler_name@];
    let mut names: Vec<String> = Vec::new();
    let mut i: usize = 0;
    while i < binary_names.len()
        invariant
            i <= binary_names@.len(),
            views(names@) =~= views(binary_names@).take(i as int),
        decreases binary_names@.len() - i,
    {
        let ghost before = names@;
        let name = binary_names[i].clone();
        names.push(name);
        assert(views(names@) =~= views(before).push(binary_names@[i as int]@));
        assert(views(binary_names@).take(i + 1) =~= views(binary_names@).take(i as int).push(
            binary_names@[i as int]@,
        ));
        i = i + 1;
    }
    let mut j: usize = 0;
    while j < dependencies.len()
        invariant
            j <= dependencies@.len(),
            views(names@) =~= views(binary_names@) + dependency_names(dependencies@).take(j as int),
        decreases dependencies@.len() - j,
    {
        let ghost before = names@;
        let name = dependencies[j].name.clone();
        names.push(name);
        assert(views(names@) =~= views(before).push(dependencies@[j as int].name@));
        assert(dependency_names(dependencies@).take(j + 1) =~= dependency_names(dependencies@).take(
            j as int,
        ).push(dependencies@[j as int].name@));
        j = j + 1;
    }
    assert(views(binary_names@).take(binary_names@.len() as int) =~= views(binary_names@));
    assert(dependency_names(dependencies@).take(dependencies@.len() as int) =~= dependency_names(
        dependencies@,
    ));
    let ghost before = names@;
    names.push(crash_handler_name.clone());
    assert(views(names@) =~= views(before).push(crash_handler_name@));
    assert(views(names@) =~= all);
    let r = sorted_unique(names.as_slice());
    assert forall|x: Seq<char>| #[trigger] all.contains(x) <==> (views(binary_names@).contains(x)
        || dependency_names(dependencies@).contains(x) || x == crash_handler_name@) by {
        let b = views(binary_names@);
        let d = dependency_names(dependencies@);
        if all.contains(x) {
            let k = choose|k: int| 0 <= k < all.len() && all[k] == x;
            if k < b.len() {
                assert(b[k] == x);
            } else if k < b.len() + d.len() {
                assert(d[k - b.len()] == x);
            }
        }
        if b.contains(x) {
            let k = choose|k: int| 0 <= k < b.len() && b[k] == x;
            assert(all[k] == x);
        }
        if d.contains(x) {
            let k = choose|k: int| 0 <= k < d.len() && d[k] == x;
            assert(all[b.len() + k] == x);
        }
        if x == crash_handler_name@ {
            assert(all[(b.len() + d.len()) as int] == x);
        }
    }
    r
}

} // verus!
