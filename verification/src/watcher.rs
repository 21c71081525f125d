//! Relevance filtering of filesystem change events.
//!
//! A watch is registered on the directory that contains the tailed file, so
//! events for unrelated files arrive as well. An event matters only when one
//! of its paths carries the tailed file's name as its last component.

use crate::reader::chars_of;
use vstd::prelude::*;

verus! {

/// A filesystem change notification, reduced to the paths it reports. The
/// caller converts whatever its notification subsystem delivers into this
/// form before asking whether the event matters.
pub struct WatchEvent {
    /// Every path the event claims to affect.
    pub paths: Vec<String>,
}

/// The longest suffix of `p` that contains no path separator.
pub open spec fn tail_component(p: Seq<char>) -> Seq<char>
    decreases p.len(),
{
    if p.len() == 0 || p.last() == '/' {
        Seq::empty()
    } else {
        tail_component(p.drop_last()).push(p.last())
    }
}

/// The file name a path refers to: its last component, once trailing
/// separators and trailing `.` components are dropped. An empty remainder or
/// a final `..` component names no file. This reads Unix-style paths the way
/// the standard library does.
pub open spec fn file_name_spec(p: Seq<char>) -> Option<Seq<char>>
    decreases p.len(),
{
    if p.len() == 0 {
        None
    } else if p.last() == '/' {
        file_name_spec(p.drop_last())
    } else {
        let comp = tail_component(p);
        if comp == seq!['.'] {
            file_name_spec(p.drop_last())
        } else if comp == seq!['.', '.'] {
            None
        } else {
            Some(comp)
        }
    }
}

/// Some path in the event has `target` as its file name.
pub open spec fn relevant_spec(paths: Seq<Seq<char>>, target: Seq<char>) -> bool {
    exists|i: int| 0 <= i < paths.len() && file_name_spec(paths[i]) == Some(target)
}

/// The suffix of `p` that starts at `s` is its tail component, provided no
/// separator occurs in it and `s` sits just past a separator or at the start.
proof fn lemma_tail_component(p: Seq<char>, s: int)
    requires
        0 <= s <= p.len(),
        forall|t: int| s <= t < p.len() ==> p[t] != '/',
        s == 0 || p[s - 1] == '/',
    ensures
        tail_component(p) == p.subrange(s, p.len() as int),
    decreases p.len(),
{
    if s == p.len() {
        assert(p.subrange(s, p.len() as int) =~= Seq::<char>::empty());
        if p.len() != 0 {
            assert(p.last() == '/');
        }
    } else {
        assert(p[p.len() - 1] != '/');
        lemma_tail_component(p.drop_last(), s);
        assert(p.drop_last().subrange(s, p.len() - 1) =~= p.subrange(s, p.len() - 1));
        assert(p.subrange(s, p.len() - 1).push(p.last()) =~= p.subrange(s, p.len() as int));
    }
}

/// The file name of `path`: its last component, or `None` when the path ends
/// in a separator run, a `.` run or a `..`, or is empty.
pub fn file_name_of(path: &str) -> (name: Option<String>)
    ensures
        match name {
            Some(n) => file_name_spec(path@) == Some(n@),
            None => file_name_spec(path@) is None,
        },
{
    let c = chars_of(path);
    let n: usize = c.len();
    let mut end: usize = n;
    proof {
        assert(c@.take(n as int) =~= path@);
    }
    loop
        invariant
            end <= n,
            n == c@.len(),
            c@ == path@,
            file_name_spec(path@) == file_name_spec(c@.take(end as int)),
        ensures
            ({
                let p = c@.take(end as int);
                &&& end <= n
                &&& n == c@.len()
                &&& c@ == path@
                &&& file_name_spec(path@) == file_name_spec(p)
                &&& end > 0
                &&& p.last() != '/'
                &&& !(tail_component(p) == seq!['.'])
            }),
        decreases end,
    {
        if end == 0 {
            proof {
                assert(c@.take(0) =~= Seq::<char>::empty());
            }
            return None;
        }
        let ghost p = c@.take(end as int);
        proof {
            assert(p.last() == c@[end - 1]);
            assert(p.drop_last() =~= c@.take(end - 1));
        }
        if c[end - 1] == '/' {
            end = end - 1;
        } else {
            // scan to the start of the last component
            let mut s: usize = end;
            while s > 0 && c[s - 1] != '/'
                invariant
                    s <= end,
                    end <= n,
                    n == c@.len(),
                    forall|t: int| s <= t < end ==> c@[t] != '/',
                decreases s,
            {
                s = s - 1;
            }
            proof {
                assert forall|t: int| s <= t < p.len() implies p[t] != '/' by {
                    assert(p[t] == c@[t]);
                }
                lemma_tail_component(p, s as int);
                assert(tail_component(p) =~= c@.subrange(s as int, end as int));
            }
            if end - s == 1 && c[s] == '.' {
                proof {
                    assert(tail_component(p) =~= seq!['.']);
                }
                end = end - 1;
            } else {
                proof {
                    if tail_component(p) == seq!['.'] {
                        assert(c@.subrange(s as int, end as int).len() == 1);
                        assert(c@.subrange(s as int, end as int)[0] == c@[s as int]);
                    }
                }
                break ;
            }
        }
    }
    let ghost p = c@.take(end as int);
    // the component at hand is neither empty nor a lone `.`
    let mut s: usize = end;
    while s > 0 && c[s - 1] != '/'
        invariant
            s <= end,
            end <= n,
            n == c@.len(),
            forall|t: int| s <= t < end ==> c@[t] != '/',
        decreases s,
    {
        s = s - 1;
    }
    proof {
        assert forall|t: int| s <= t < p.len() implies p[t] != '/' by {
            assert(p[t] == c@[t]);
        }
        lemma_tail_component(p, s as int);
        assert(tail_component(p) =~= c@.subrange(s as int, end as int));
    }
    if end - s == 2 && c[s] == '.' && c[s + 1] == '.' {
        proof {
            assert(tail_component(p) =~= seq!['.', '.']);
        }
        return None;
    }
    proof {
        let comp = tail_component(p);
        if comp == seq!['.', '.'] {
            assert(comp[0] == '.' && comp[1] == '.');
            assert(c@[s as int] == '.' && c@[s + 1] == '.');
        }
    }
    let name = path.substring_char(s, end).to_owned();
    proof {
        assert(name@ =~= tail_component(p));
    }
    Some(name)
}

/// An event matters exactly when one of its paths carries the target file
/// name as its last component; the comparison is byte-exact and the
/// directory the path points into plays no role.
pub fn is_event_relevant_to_file(event: &WatchEvent, target_file_name: &str) -> (relevant: bool)
    ensures
        relevant == relevant_spec(event.paths.deep_view(), target_file_name@),
{
    let target = target_file_name.to_owned();
    let count = event.paths.len();
    let mut i: usize = 0;
    while i < count
        invariant
            i <= count,
            count == event.paths@.len(),
            target@ == target_file_name@,
            forall|j: int|
                0 <= j < i ==> !(file_name_spec(event.paths.deep_view()[j]) == Some(
                    target_file_name@,
                )),
        decreases count - i,
    {
        let found = file_name_of(event.paths[i].as_str());
        proof {
            assert(event.paths.deep_view()[i as int] == event.paths@[i as int]@);
        }
        match found {
            Some(name) => {
                if name.eq(&target) {
                    proof {
                        assert(file_name_spec(event.paths.deep_view()[i as int]) == Some(
                            target_file_name@,
                        ));
                    }
                    return true;
                }
            },
            None => {},
        }
        i = i + 1;
    }
    false
}

} // verus!
