//! Structured member paths. An archive member is addressed by a sequence of
//! components; the final component is the base file name.

use vstd::prelude::*;
use vstd::string::*;

verus! {

/// The components of `s` split on `'/'`: one component more than there are
/// separators, in order, none holding the separator itself.
pub open spec fn split_path(s: Seq<char>) -> Seq<Seq<char>>
    decreases s.len(),
{
    if s.len() == 0 {
        seq![Seq::<char>::empty()]
    } else if s.last() == '/' {
        split_path(s.drop_last()).push(Seq::<char>::empty())
    } else {
        let rest = split_path(s.drop_last());
        rest.update(rest.len() - 1, rest.last().push(s.last()))
    }
}

/// Splitting always yields at least one component.
pub proof fn lemma_split_path_len(s: Seq<char>)
    ensures
        split_path(s).len() >= 1,
    decreases s.len(),
{
    if s.len() > 0 {
        lemma_split_path_len(s.drop_last());
    }
}

/// The path of one member inside an archive, as a nonempty list of
/// components. Its view is the sequence of component views.
pub struct MemberPath {
    components: Vec<String>,
}

impl View for MemberPath {
    type V = Seq<Seq<char>>;

    closed spec fn view(&self) -> Seq<Seq<char>> {
        self.components.deep_view()
    }
}

impl MemberPath {
    /// Builds the path whose components are `s` split on `'/'`.
    pub fn parse(s: &str) -> (r: MemberPath)
        ensures
            r@ == split_path(s@),
            r@.len() >= 1,
    {
        let len = s.unicode_len();
        let mut components: Vec<String> = Vec::new();
        let mut start: usize = 0;
        let mut i: usize = 0;
        proof {
            assert(s@.take(0) =~= Seq::<char>::empty());
            assert(s@.subrange(0, 0) =~= Seq::<char>::empty());
            assert(components.deep_view().push(s@.subrange(0, 0)) =~= split_path(s@.take(0)));
        }
        while i < len
            invariant
                len == s@.len(),
                start <= i <= len,
                components.deep_view().push(s@.subrange(start as int, i as int)) == split_path(
                    s@.take(i as int),
                ),
            decreases len - i,
        {
            let ghost pre = components.deep_view();
            let c = s.get_char(i);
            if c == '/' {
                let comp = s.substring_char(start, i).to_owned();
                components.push(comp);
                proof {
                    assert(s@.take(i + 1).drop_last() =~= s@.take(i as int));
                    assert(s@.take(i + 1).last() == '/');
                    assert(components.deep_view() =~= pre.push(
                        s@.subrange(start as int, i as int),
                    ));
                    assert(s@.subrange(i + 1, i + 1) =~= Seq::<char>::empty());
                    assert(components.deep_view().push(s@.subrange(i + 1, i + 1)) =~= split_path(
                        s@.take(i + 1),
                    ));
                }
                start = i + 1;
            } else {
                proof {
                    assert(s@.take(i + 1).drop_last() =~= s@.take(i as int));
                    assert(s@.take(i + 1).last() == s@[i as int]);
                    lemma_split_path_len(s@.take(i as int));
                    assert(s@.subrange(start as int, i as int).push(s@[i as int]) =~= s@.subrange(
                        start as int,
                        i + 1,
                    ));
                    assert(components.deep_view().push(s@.subrange(start as int, i + 1))
                        =~= split_path(s@.take(i + 1)));
                }
            }
            i = i + 1;
        }
        let comp = s.substring_char(start, len).to_owned();
        let ghost pre = components.deep_view();
        components.push(comp);
        proof {
            assert(s@.take(len as int) =~= s@);
            assert(s@.subrange(start as int, len as int) == comp@);
            assert(components.deep_view() =~= pre.push(comp@));
            lemma_split_path_len(s@);
        }
        MemberPath { components }
    }

    /// Number of components.
    pub fn len(&self) -> (n: usize)
        ensures
            n == self@.len(),
    {
        self.components.len()
    }

    /// The component at index `i`.
    pub fn component(&self, i: usize) -> (c: &String)
        requires
            i < self@.len(),
        ensures
            c@ == self@[i as int],
    {
        &self.components[i]
    }

    /// The final component: the base file name.
    pub fn base_name(&self) -> (c: &String)
        requires
            self@.len() > 0,
        ensures
            c@ == self@.last(),
    {
        &self.components[self.components.len() - 1]
    }
}

} // verus!
