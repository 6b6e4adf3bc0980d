use vstd::prelude::*;
use vstd::view::View as _;

use crate::dir_action::{spec_recurse_options, DirAction};
use crate::filter::{keep_dirs, spec_filter_files, spec_sort_files};
use crate::fs::{Dir, File};
use crate::options::Options;
use crate::render::{
    spec_details_view, spec_git_here, spec_grid_details_view, spec_grid_view, spec_lines_view,
};
use crate::view::View;

verus! {

/// One directory waiting to be listed.
#[derive(Debug, Clone)]
pub struct DirJob {
    /// The path of the directory.
    pub path: String,
}

/// The paths of a run of queued jobs.
pub open spec fn jobs_paths(q: Seq<DirJob>) -> Seq<Seq<char>> {
    Seq::new(q.len(), |i: int| q[i].path@)
}

/// Whether the directory action shows directories as plain entries.
pub open spec fn spec_treat_as_files(a: DirAction) -> bool {
    match a {
        DirAction::AsFile => true,
        DirAction::Recurse(o) => o.tree,
        DirAction::List => false,
    }
}

/// Whether an argument entry is split off to be listed as a
/// directory of its own.
pub open spec fn is_listed_dir(a: DirAction, f: File) -> bool {
    f.spec_is_directory() && !spec_treat_as_files(a)
}

/// The lines one view renders for one batch of entries.
pub open spec fn spec_view_lines(v: View, git_here: bool, files: Seq<File>) -> Seq<Seq<char>> {
    match v {
        View::Lines(l) => spec_lines_view(files),
        View::Grid(g) => spec_grid_view(g, files),
        View::Details(d) => spec_details_view(d, git_here, files),
        View::GridDetails(gd) => spec_grid_details_view(gd, git_here, files),
    }
}

/// The lines a batch produces: nothing at all when the batch is
/// empty.
pub open spec fn spec_batch_lines(v: View, git_here: bool, files: Seq<File>) -> Seq<Seq<char>> {
    if files.len() == 0 {
        Seq::empty()
    } else {
        spec_view_lines(v, git_here, files)
    }
}

/// The length of the leading run of non-separator characters.
pub open spec fn seg_len(s: Seq<char>) -> int
    decreases s.len(),
{
    if s.len() > 0 && s[0] != '/' {
        1 + seg_len(s.drop_first())
    } else {
        0
    }
}

/// How many path components a path text holds, not counting the
/// `.` components that mean the current directory.
pub open spec fn comp_count(s: Seq<char>) -> int
    decreases s.len(),
    via comp_count_decreases
{
    if s.len() == 0 {
        0
    } else if s[0] == '/' {
        comp_count(s.drop_first())
    } else {
        let r = seg_len(s);
        (if s.take(r) == seq!['.'] {
            0int
        } else {
            1int
        }) + comp_count(s.skip(r))
    }
}

/// The leading segment is never longer than the text, and is
/// non-empty when the text starts inside a segment.
pub proof fn lemma_seg_len_bounds(s: Seq<char>)
    ensures
        0 <= seg_len(s) <= s.len(),
        s.len() > 0 && s[0] != '/' ==> seg_len(s) >= 1,
        forall|i: int| 0 <= i < seg_len(s) ==> s[i] != '/',
        seg_len(s) < s.len() ==> s[seg_len(s)] == '/',
    decreases s.len(),
{
    if s.len() > 0 && s[0] != '/' {
        lemma_seg_len_bounds(s.drop_first());
        assert forall|i: int| 0 <= i < seg_len(s) implies s[i] != '/' by {
            if i > 0 {
                assert(s.drop_first()[i - 1] == s[i]);
            }
        }
        if seg_len(s) < s.len() {
            assert(s.drop_first()[seg_len(s) - 1] == s[seg_len(s)]);
        }
    }
}

#[via_fn]
proof fn comp_count_decreases(s: Seq<char>) {
    lemma_seg_len_bounds(s);
}

/// A segment placed before any suffix is what `seg_len` finds, when
/// the suffix does not continue it.
pub proof fn lemma_seg_len_at(s: Seq<char>, k: int)
    requires
        0 <= k <= s.len(),
        forall|i: int| 0 <= i < k ==> s[i] != '/',
        k == s.len() || s[k] == '/',
    ensures
        seg_len(s) == k,
    decreases k,
{
    if k == 0 {
    } else {
        lemma_seg_len_at(s.drop_first(), k - 1);
    }
}

/// The depth the traversal gives a directory path: its component
/// count, one more for the leading separator of an absolute path,
/// and one more for the directory itself.
pub open spec fn path_depth(s: Seq<char>) -> int {
    (if s.len() > 0 && s[0] == '/' {
        1int
    } else {
        0int
    }) + comp_count(s) + 1
}

/// Counts the path components of a path text, skipping the `.` ones.
pub fn count_components(path: &str) -> (r: usize)
    ensures
        r as int == comp_count(path@),
        comp_count(path@) <= path@.len(),
{
    let v = crate::text::chars_of(path);
    let n = v.len();
    let mut i: usize = 0;
    let mut count: usize = 0;
    proof {
        assert(v@.skip(0) =~= v@);
        lemma_comp_count_bound(v@);
    }
    while i < n
        invariant
            0 <= i <= n,
            n == v@.len(),
            v@ == path@,
            count as int + comp_count(v@.skip(i as int)) == comp_count(v@),
            comp_count(v@.skip(i as int)) >= 0,
            count <= i,
        decreases n - i,
    {
        let ghost suffix = v@.skip(i as int);
        proof {
            lemma_comp_count_bound(suffix);
        }
        if v[i] == '/' {
            proof {
                assert(suffix[0] == '/');
                assert(suffix.drop_first() =~= v@.skip(i + 1));
                lemma_comp_count_bound(v@.skip(i + 1));
            }
            i = i + 1;
        } else {
            // Scan to the end of this segment.
            let mut e = i;
            while e < n && v[e] != '/'
                invariant
                    i <= e <= n,
                    n == v@.len(),
                    forall|m: int| i <= m < e ==> v@[m] != '/',
                decreases n - e,
            {
                e = e + 1;
            }
            proof {
                assert forall|m: int| 0 <= m < e - i implies suffix[m] != '/' by {
                    assert(suffix[m] == v@[i + m]);
                }
                if e < n {
                    assert(suffix[e - i] == v@[e as int]);
                }
                lemma_seg_len_at(suffix, e - i);
            }
            let is_cur = e == i + 1 && v[i] == '.';
            proof {
                assert(suffix.take(e - i) =~= v@.subrange(i as int, e as int));
                if is_cur {
                    assert(v@.subrange(i as int, e as int) =~= seq!['.']);
                } else {
                    if e == i + 1 {
                        assert(v@.subrange(i as int, e as int)[0] == v@[i as int]);
                        assert(v@.subrange(i as int, e as int) != seq!['.']);
                    } else {
                        assert(v@.subrange(i as int, e as int).len() != 1);
                        assert(v@.subrange(i as int, e as int) != seq!['.']);
                    }
                }
                assert(suffix.skip(e - i) =~= v@.skip(e as int));
                lemma_comp_count_bound(v@.skip(e as int));
            }
            if !is_cur {
                count = count + 1;
            }
            i = e;
        }
    }
    proof {
        assert(v@.skip(n as int) =~= Seq::<char>::empty());
    }
    count
}

/// A component count never exceeds the text's length.
pub proof fn lemma_comp_count_bound(s: Seq<char>)
    ensures
        0 <= comp_count(s) <= s.len(),
    decreases s.len(),
{
    lemma_seg_len_bounds(s);
    if s.len() == 0 {
    } else if s[0] == '/' {
        lemma_comp_count_bound(s.drop_first());
    } else {
        lemma_comp_count_bound(s.skip(seg_len(s)));
    }
}

/// The depth of a directory path, as the traversal measures it.
pub fn measure_depth(path: &str) -> (r: usize)
    requires
        path@.len() < usize::MAX - 2,
    ensures
        r as int == path_depth(path@),
{
    let comps = count_components(path);
    let abs: usize = if path.unicode_len() > 0 && path.get_char(0) == '/' {
        1
    } else {
        0
    };
    proof {
        assert(comp_count(path@) <= path@.len());
    }
    abs + comps + 1
}

/// The whole engine: the resolved options, and the queue of
/// directories still to list.  The queue is worked front first; a
/// directory's own children join the front, so each directory's
/// contents come out before its later siblings.
#[derive(Debug)]
pub struct Exa {
    /// The resolved options of this run.
    pub options: Options,
    /// The directories waiting to be listed.
    pub queue: Vec<DirJob>,
    /// Whether no output block has been shown yet, so the next block
    /// opens without a separator line.
    pub first: bool,
    /// Whether exactly one directory and nothing else was asked for,
    /// which suppresses its heading.
    pub is_only_dir: bool,
}

impl Exa {
    /// A fresh engine, before any paths are taken in.
    pub fn new(options: Options) -> (r: Exa)
        ensures
            r.options == options,
            r.queue@.len() == 0,
            r.first,
            !r.is_only_dir,
    {
        Exa { options, queue: Vec::new(), first: true, is_only_dir: false }
    }

    /// Renders one batch through the active view; an empty batch
    /// renders nothing at all.
    pub fn print_files(view: &View, dir: Option<&Dir>, files: &Vec<File>) -> (r: Vec<String>)
        ensures
            r.deep_view() == spec_batch_lines(*view, spec_git_here(dir), files@),
    {
        if files.len() == 0 {
            let out: Vec<String> = Vec::new();
            proof {
                assert(out.deep_view() =~= Seq::<Seq<char>>::empty());
            }
            out
        } else {
            match view {
                View::Lines(l) => l.view(files),
                View::Grid(g) => g.view(files),
                View::Details(d) => d.view(dir, files),
                View::GridDetails(gd) => gd.view(dir, files),
            }
        }
    }

    /// Takes in the command-line entries, already resolved: splits
    /// off the directories to descend into, renders everything else
    /// as one batch, and queues the directories in the order they
    /// were named.  The returned lines are the run's first block.
    pub fn run_begin(&mut self, args: Vec<File>) -> (r: Vec<String>)
        requires
            old(self).queue@.len() == 0,
        ensures
            final(self).options == old(self).options,
            r.deep_view() == spec_batch_lines(
                old(self).options.view,
                false,
                args@.filter(|f: File| !is_listed_dir(old(self).options.dir_action, f)),
            ),
            jobs_paths(final(self).queue@) == args@.filter(
                |f: File| is_listed_dir(old(self).options.dir_action, f),
            ).map_values(|f: File| f.path@),
            final(self).first == (args@.filter(
                |f: File| !is_listed_dir(old(self).options.dir_action, f),
            ).len() == 0),
            final(self).is_only_dir == (args@.filter(
                |f: File| is_listed_dir(old(self).options.dir_action, f),
            ).len() == 1 && args@.filter(
                |f: File| !is_listed_dir(old(self).options.dir_action, f),
            ).len() == 0),
    {
        let ghost action = self.options.dir_action;
        let ghost orig = args@;
        let mut args = args;
        let mut files: Vec<File> = Vec::new();
        let mut jobs: Vec<DirJob> = Vec::new();
        let n = args.len();
        let mut i: usize = 0;
        proof {
            reveal(Seq::filter);
            assert(orig.take(0) =~= Seq::<File>::empty());
        }
        while i < n
            invariant
                0 <= i <= n,
                args@ == orig,
                n == orig.len(),
                action == self.options.dir_action,
                files@ == orig.take(i as int).filter(|f: File| !is_listed_dir(action, f)),
                jobs@.len() == orig.take(i as int).filter(
                    |f: File| is_listed_dir(action, f),
                ).len(),
                forall|m: int|
                    0 <= m < jobs@.len() ==> jobs@[m].path@ == orig.take(i as int).filter(
                        |f: File| is_listed_dir(action, f),
                    )[m].path@,
            decreases n - i,
        {
            proof {
                reveal(Seq::filter);
                assert(orig.take(i + 1).drop_last() =~= orig.take(i as int));
                assert(orig.take(i + 1).last() == orig[i as int]);
            }
            let f = args[i].clone_entry();
            let to_list = f.is_directory() && !self.options.dir_action.treat_dirs_as_files();
            proof {
                assert(to_list == is_listed_dir(action, orig[i as int]));
            }
            if to_list {
                let job = DirJob { path: f.path.clone() };
                jobs.push(job);
                proof {
                    reveal(Seq::filter);
                    assert(orig.take(i + 1).filter(|f: File| is_listed_dir(action, f))
                        == orig.take(i as int).filter(
                        |f: File| is_listed_dir(action, f),
                    ).push(orig[i as int]));
                }
            } else {
                files.push(f);
                proof {
                    reveal(Seq::filter);
                    assert(files@ =~= orig.take(i + 1).filter(
                        |f: File| !is_listed_dir(action, f),
                    ));
                }
            }
            i = i + 1;
        }
        proof {
            assert(orig.take(n as int) =~= orig);
            let kept = orig.filter(|f: File| is_listed_dir(action, f));
            assert forall|m: int| 0 <= m < jobs@.len() implies jobs_paths(jobs@)[m]
                == kept.map_values(|f: File| f.path@)[m] by {
                assert(jobs_paths(jobs@)[m] == jobs@[m].path@);
            }
            assert(jobs_paths(jobs@) =~= kept.map_values(|f: File| f.path@));
        }
        let out = Exa::print_files(&self.options.view, Option::None, &files);
        let no_files = files.len() == 0;
        let only = jobs.len() == 1 && no_files;
        self.first = no_files;
        self.is_only_dir = only;
        self.queue = jobs;
        out
    }

    /// The path of the next directory to enumerate, if any is left.
    pub fn next_dir_path(&self) -> (r: Option<String>)
        ensures
            match r {
                Option::Some(p) => self.queue@.len() > 0 && p@ == self.queue@[0].path@,
                Option::None => self.queue@.len() == 0,
            },
    {
        if self.queue.len() == 0 {
            Option::None
        } else {
            Option::Some(self.queue[0].path.clone())
        }
    }

    /// Whether the traversal descends from the given directory: a
    /// recursion mode must be on, the tree form draws nesting itself,
    /// and the depth limit must not be reached.
    pub open spec fn spec_descends(options: Options, dir: Dir) -> bool {
        match spec_recurse_options(options.dir_action) {
            Option::Some(ro) => !ro.tree && !(match ro.max_depth {
                Option::Some(d) => d <= path_depth(dir.path@),
                Option::None => false,
            }),
            Option::None => false,
        }
    }

    /// The entries of one directory, filtered and ordered as the
    /// configuration asks.
    pub open spec fn spec_processed(options: Options, children: Seq<File>) -> Seq<File> {
        spec_sort_files(options.filter, spec_filter_files(options.filter, children))
    }

    /// The block of lines one directory contributes: a separator
    /// line before every block but the run's first; the directory's
    /// path as a heading, unless it is the only thing listed at all;
    /// then its filtered, ordered entries through the active view.
    pub open spec fn spec_dir_block(
        options: Options,
        first: bool,
        is_only_dir: bool,
        dir: Dir,
        children: Seq<File>,
    ) -> Seq<Seq<char>> {
        let processed = Self::spec_processed(options, children);
        (if first {
            Seq::<Seq<char>>::empty()
        } else {
            seq![Seq::<char>::empty()]
        }) + (if is_only_dir {
            Seq::<Seq<char>>::empty()
        } else {
            seq![dir.path@ + ":"@]
        }) + spec_batch_lines(options.view, dir.git, processed)
    }

    /// The child directories the traversal descends into after one
    /// directory's block, in the order they were shown.
    pub open spec fn spec_child_paths(options: Options, dir: Dir, children: Seq<File>) -> Seq<
        Seq<char>,
    > {
        if Self::spec_descends(options, dir) {
            keep_dirs(Self::spec_processed(options, children)).map_values(|f: File| f.path@)
        } else {
            Seq::empty()
        }
    }

    /// Lists one enumerated directory: renders its block, and queues
    /// its child directories, ahead of the remaining siblings, when
    /// the traversal descends.  `dir` must be the queue's front.
    pub fn dir_listed(&mut self, dir: Dir, children: Vec<File>) -> (r: Vec<String>)
        requires
            old(self).queue@.len() > 0,
            dir.path@ == old(self).queue@[0].path@,
            dir.path@.len() < usize::MAX - 2,
        ensures
            final(self).options == old(self).options,
            !final(self).is_only_dir,
            !final(self).first,
            r.deep_view() == Self::spec_dir_block(
                old(self).options,
                old(self).first,
                old(self).is_only_dir,
                dir,
                children@,
            ),
            jobs_paths(final(self).queue@) == Self::spec_child_paths(
                old(self).options,
                dir,
                children@,
            ) + jobs_paths(old(self).queue@).drop_first(),
    {
        let ghost goptions = self.options;
        let mut out: Vec<String> = Vec::new();
        if !self.first {
            out.push(String::new());
        }
        if !self.is_only_dir {
            let mut heading = dir.path.clone();
            heading.append(":");
            out.push(heading);
        }
        let ghost headlines = (if self.first {
            Seq::<Seq<char>>::empty()
        } else {
            seq![Seq::<char>::empty()]
        }) + (if self.is_only_dir {
            Seq::<Seq<char>>::empty()
        } else {
            seq![dir.path@ + ":"@]
        });
        proof {
            assert forall|m: int| 0 <= m < out@.len() implies out.deep_view()[m]
                == headlines[m] by {
                assert(out.deep_view()[m] == out@[m]@);
            }
            assert(out.deep_view() =~= headlines);
        }
        let mut kids = children;
        self.options.filter.filter_files(&mut kids);
        self.options.filter.sort_files(&mut kids);
        proof {
            assert(kids@ == Self::spec_processed(goptions, children@));
        }
        // Decide the descent and collect the child directories.
        let descends: bool = match self.options.dir_action.recurse_options() {
            Option::Some(ro) => {
                if ro.tree {
                    false
                } else {
                    let depth = measure_depth(dir.path.as_str());
                    !ro.is_too_deep(depth)
                }
            },
            Option::None => false,
        };
        proof {
            assert(descends == Self::spec_descends(goptions, dir));
        }
        let mut jobs: Vec<DirJob> = Vec::new();
        if descends {
            let nk = kids.len();
            let mut i: usize = 0;
            proof {
                reveal(Seq::filter);
                assert(kids@.take(0) =~= Seq::<File>::empty());
            }
            while i < nk
                invariant
                    0 <= i <= nk,
                    nk == kids@.len(),
                    jobs@.len() == keep_dirs(kids@.take(i as int)).len(),
                    forall|m: int|
                        0 <= m < jobs@.len() ==> jobs@[m].path@ == keep_dirs(
                            kids@.take(i as int),
                        )[m].path@,
                decreases nk - i,
            {
                proof {
                    reveal(Seq::filter);
                    assert(kids@.take(i + 1).drop_last() =~= kids@.take(i as int));
                    assert(kids@.take(i + 1).last() == kids@[i as int]);
                }
                if kids[i].is_directory() {
                    let job = DirJob { path: kids[i].path.clone() };
                    jobs.push(job);
                    proof {
                        reveal(Seq::filter);
                        assert(keep_dirs(kids@.take(i + 1)) == keep_dirs(
                            kids@.take(i as int),
                        ).push(kids@[i as int]));
                    }
                }
                i = i + 1;
            }
            proof {
                assert(kids@.take(nk as int) =~= kids@);
                let kept = keep_dirs(kids@);
                assert forall|m: int| 0 <= m < jobs@.len() implies jobs_paths(jobs@)[m]
                    == kept.map_values(|f: File| f.path@)[m] by {
                    assert(jobs_paths(jobs@)[m] == jobs@[m].path@);
                }
                assert(jobs_paths(jobs@) =~= kept.map_values(|f: File| f.path@));
            }
        }
        // The front job is done; what was found goes ahead of the
        // remaining siblings.
        let ghost oldq = self.queue@;
        let _ = self.queue.remove(0);
        let mut newq = jobs;
        newq.append(&mut self.queue);
        self.queue = newq;
        proof {
            assert(oldq.remove(0) =~= oldq.drop_first());
            assert forall|m: int| 0 <= m < self.queue@.len() implies jobs_paths(self.queue@)[m]
                == (Self::spec_child_paths(goptions, dir, children@) + jobs_paths(
                oldq,
            ).drop_first())[m] by {
                assert(jobs_paths(oldq).drop_first() =~= jobs_paths(oldq.drop_first()));
            }
            assert(jobs_paths(self.queue@) =~= Self::spec_child_paths(goptions, dir, children@)
                + jobs_paths(oldq).drop_first());
        }
        let mut body = Exa::print_files(&self.options.view, Option::Some(&dir), &kids);
        let ghost bodyv = body.deep_view();
        let ghost outv = out.deep_view();
        out.append(&mut body);
        self.first = false;
        // Whatever comes after this block is a sibling or a child,
        // never the run's sole listing, so later blocks get their
        // headings.
        self.is_only_dir = false;
        proof {
            assert forall|m: int| 0 <= m < out@.len() implies out.deep_view()[m] == (outv
                + bodyv)[m] by {
                assert(out.deep_view()[m] == out@[m]@);
                if m < outv.len() {
                    assert(out@[m]@ == outv[m]);
                } else {
                    assert(out@[m]@ == bodyv[m - outv.len()]);
                }
            }
            assert(out.deep_view() =~= outv + bodyv);
            assert(out.deep_view() =~= Self::spec_dir_block(
                goptions,
                old(self).first,
                old(self).is_only_dir,
                dir,
                children@,
            ));
        }
        out
    }
}

/// The exit status the run ends with when the output sink refuses a
/// write: a reader that closed the pipe ends the run cleanly, any
/// other write failure is a real failure.
pub fn exit_status_for_write_error(broken_pipe: bool) -> (r: i32)
    ensures
        r == (if broken_pipe {
            0int
        } else {
            1int
        }),
{
    if broken_pipe {
        0
    } else {
        1
    }
}

} // verus!
