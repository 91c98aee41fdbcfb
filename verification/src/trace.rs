use vstd::prelude::*;

verus! {

/// A path kept as a chain of "parent trace + one component": built as
/// the traversal descends, and only materialized into one rendered path
/// when a failure actually needs to report it.
pub enum PathTrace {
    /// The traversal's starting point, rendered as the relative origin.
    Root,
    /// One component below its parent trace.
    Below(Box<PathTrace>, Vec<u8>),
}

/// How one rendered path reads: the relative origin `.`, then `/` and
/// one component for each level descended.
pub open spec fn rendered(components: Seq<Seq<u8>>) -> Seq<u8>
    decreases components.len(),
{
    if components.len() == 0 {
        seq![46u8]
    } else {
        rendered(components.drop_last()) + seq![47u8] + components.last()
    }
}

impl PathTrace {
    /// The chain's components, root first.
    pub open spec fn components(self) -> Seq<Seq<u8>>
        decreases self,
    {
        match self {
            PathTrace::Root => Seq::empty(),
            PathTrace::Below(parent, name) => (*parent).components().push(name@),
        }
    }

    /// The chain's length, the measure by which rendering terminates.
    pub open spec fn depth(self) -> nat
        decreases self,
    {
        match self {
            PathTrace::Root => 0,
            PathTrace::Below(parent, _) => 1 + (*parent).depth(),
        }
    }

    /// Extend the chain by one component; nothing is concatenated yet.
    pub fn child(self, name: Vec<u8>) -> (t: PathTrace)
        ensures
            t.components() == self.components().push(name@),
    {
        PathTrace::Below(Box::new(self), name)
    }

    /// Materialize the chain into one path, separator-joined; called
    /// only on the reporting path, never during normal traversal.
    pub fn render(&self) -> (r: Vec<u8>)
        ensures
            r@ == rendered(self.components()),
        decreases self.depth(),
    {
        match self {
            PathTrace::Root => {
                let mut r: Vec<u8> = Vec::new();
                r.push(46u8);
                proof {
                    assert(r@ =~= rendered(Seq::empty()));
                }
                r
            },
            PathTrace::Below(parent, name) => {
                let mut r = parent.render();
                r.push(47u8);
                let mut i: usize = 0;
                let ghost head: Seq<u8> = r@;
                while i < name.len()
                    invariant
                        i <= name@.len(),
                        r@ == head + name@.take(i as int),
                    decreases name@.len() - i,
                {
                    r.push(name[i]);
                    proof {
                        assert(head + name@.take(i as int) + seq![name@[i as int]] =~= head + name@.take(
                            i as int + 1,
                        ));
                    }
                    i += 1;
                }
                proof {
                    let cs = self.components();
                    assert(name@.take(name@.len() as int) =~= name@);
                    assert(cs.drop_last() =~= (*parent).components());
                    assert(cs.last() == name@);
                    assert(r@ =~= rendered(cs));
                }
                r
            },
        }
    }
}

} // verus!
