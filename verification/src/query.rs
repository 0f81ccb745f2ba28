//! Queries: a space-separated list of video identifiers, resolved to
//! the metadata-endpoint URLs that will be fetched for them.

use vstd::prelude::*;

use crate::dash::string_views;

verus! {

/// The query split at every single space, empty pieces kept: the same
/// tokens a split on one space character yields.
pub open spec fn split_spaces(s: Seq<char>) -> Seq<Seq<char>>
    decreases s.len(),
{
    if s.len() == 0 {
        seq![Seq::empty()]
    } else if s[0] == ' ' {
        seq![Seq::<char>::empty()] + split_spaces(s.drop_first())
    } else {
        let rest = split_spaces(s.drop_first());
        seq![seq![s[0]] + rest[0]] + rest.drop_first()
    }
}

/// Splitting always yields at least one token.
pub proof fn lemma_split_spaces_nonempty(s: Seq<char>)
    ensures
        split_spaces(s).len() >= 1,
    decreases s.len(),
{
    if s.len() != 0 && s[0] != ' ' {
        lemma_split_spaces_nonempty(s.drop_first());
    }
}

/// The metadata-endpoint URL for one video identifier.
pub open spec fn video_info_url_spec(id: Seq<char>) -> Seq<char> {
    "https://www.youtube.com/get_video_info?video_id="@ + id
}

/// The endpoint URLs of a sequence of identifiers, in order.
pub open spec fn video_info_urls(ids: Seq<Seq<char>>) -> Seq<Seq<char>> {
    ids.map_values(|id: Seq<char>| video_info_url_spec(id))
}

/// Builds the metadata-endpoint URL for one video identifier.
pub fn video_info_url(id: &str) -> (r: String)
    ensures
        r@ == video_info_url_spec(id@),
{
    let mut u: String = "https://www.youtube.com/get_video_info?video_id=".to_owned();
    u.append(id);
    u
}

/// A collection of video identifiers to resolve, as one space-separated
/// query string.
#[derive(Debug)]
pub struct Query(pub String);

impl View for Query {
    type V = Seq<char>;

    open spec fn view(&self) -> Seq<char> {
        self.0@
    }
}

impl core::str::FromStr for Query {
    type Err = &'static str;

    fn from_str(s: &str) -> Result<Self, Self::Err> {
        Ok(Query(s.to_owned()))
    }
}

impl Query {
    /// Builds a query from its raw text.
    pub fn new(s: String) -> (r: Query)
        ensures
            r@ == s@,
    {
        Query(s)
    }

    /// The identifiers of the query: its text split at every space,
    /// in order, empty pieces kept.
    pub fn ids(&self) -> (r: Vec<String>)
        ensures
            string_views(r@) == split_spaces(self@),
    {
        let s = self.0.as_str();
        let n = s.unicode_len();
        let mut done: Vec<String> = Vec::new();
        let mut cur = String::new();
        let mut i: usize = 0;
        proof {
            assert(self@.subrange(0, n as int) =~= self@);
            lemma_split_spaces_nonempty(self@);
            assert(cur@ + split_spaces(self@)[0] =~= split_spaces(self@)[0]);
            assert(string_views(done@) =~= Seq::<Seq<char>>::empty());
            assert(split_spaces(self@) =~= string_views(done@) + seq![
                cur@ + split_spaces(self@)[0],
            ] + split_spaces(self@).drop_first());
        }
        while i < n
            invariant
                n == s@.len(),
                s@ == self@,
                i <= n,
                split_spaces(self@) == string_views(done@) + seq![
                    cur@ + split_spaces(self@.subrange(i as int, n as int))[0],
                ] + split_spaces(self@.subrange(i as int, n as int)).drop_first(),
            decreases n - i,
        {
            let ghost rem = self@.subrange(i as int, n as int);
            let ghost rest = split_spaces(self@.subrange(i + 1, n as int));
            proof {
                lemma_split_spaces_nonempty(rem);
                lemma_split_spaces_nonempty(self@.subrange(i + 1, n as int));
                assert(rem.len() > 0);
                assert(rem[0] == self@[i as int]);
                assert(rem.drop_first() =~= self@.subrange(i + 1, n as int));
            }
            let ghost curpre = cur@;
            let ghost dpre = done@;
            let c = s.get_char(i);
            if c == ' ' {
                proof {
                    assert(split_spaces(rem) == seq![Seq::<char>::empty()] + rest);
                    assert(split_spaces(rem)[0] =~= Seq::<char>::empty());
                    assert(curpre + split_spaces(rem)[0] =~= curpre);
                    assert(split_spaces(rem).drop_first() =~= rest);
                    assert(rest =~= seq![rest[0]] + rest.drop_first());
                }
                done.push(cur);
                cur = String::new();
                proof {
                    assert(string_views(done@) =~= string_views(dpre).push(curpre));
                    assert(cur@ + rest[0] =~= rest[0]);
                    assert(string_views(done@) + seq![cur@ + rest[0]] + rest.drop_first()
                        =~= string_views(dpre) + seq![curpre + split_spaces(rem)[0]] + split_spaces(
                        rem,
                    ).drop_first());
                }
            } else {
                let piece = s.substring_char(i, i + 1);
                cur.append(piece);
                proof {
                    assert(split_spaces(rem) == seq![seq![rem[0]] + rest[0]] + rest.drop_first());
                    assert(piece@ =~= seq![self@[i as int]]);
                    assert(cur@ =~= curpre + seq![rem[0]]);
                    assert(cur@ + rest[0] =~= curpre + split_spaces(rem)[0]);
                    assert(split_spaces(rem).drop_first() =~= rest.drop_first());
                    assert(string_views(done@) + seq![cur@ + rest[0]] + rest.drop_first()
                        =~= string_views(dpre) + seq![curpre + split_spaces(rem)[0]] + split_spaces(
                        rem,
                    ).drop_first());
                }
            }
            i += 1;
        }
        proof {
            let rem = self@.subrange(n as int, n as int);
            assert(rem =~= Seq::<char>::empty());
            assert(split_spaces(rem) == seq![Seq::<char>::empty()]);
            assert(cur@ + split_spaces(rem)[0] =~= cur@);
            assert(split_spaces(rem).drop_first() =~= Seq::<Seq<char>>::empty());
        }
        let ghost dpre = done@;
        done.push(cur);
        proof {
            assert(string_views(done@) =~= string_views(dpre).push(done@[dpre.len() as int]@));
            assert(string_views(dpre) + seq![done@[dpre.len() as int]@] + Seq::<Seq<char>>::empty()
                =~= string_views(done@));
            assert(split_spaces(self@) =~= string_views(done@));
        }
        done
    }

    /// The metadata-endpoint URLs of the query's identifiers, in order:
    /// one fixed-endpoint URL per identifier.
    pub fn urls(&self) -> (r: Vec<String>)
        ensures
            string_views(r@) == video_info_urls(split_spaces(self@)),
    {
        let ids = self.ids();
        let mut out: Vec<String> = Vec::new();
        let mut i: usize = 0;
        while i < ids.len()
            invariant
                i <= ids.len(),
                string_views(ids@) == split_spaces(self@),
                string_views(out@) == video_info_urls(split_spaces(self@).subrange(0, i as int)),
            decreases ids.len() - i,
        {
            let ghost pre = out@;
            out.push(video_info_url(ids[i].as_str()));
            proof {
                assert(string_views(out@) =~= string_views(pre).push(out@[pre.len() as int]@));
                assert(out@[pre.len() as int]@ == video_info_url_spec(split_spaces(self@)[i as int]));
                assert(split_spaces(self@).subrange(0, i + 1) =~= split_spaces(self@).subrange(
                    0,
                    i as int,
                ).push(split_spaces(self@)[i as int]));
                assert(video_info_urls(split_spaces(self@).subrange(0, i as int).push(
                    split_spaces(self@)[i as int],
                )) =~= video_info_urls(split_spaces(self@).subrange(0, i as int)).push(
                    video_info_url_spec(split_spaces(self@)[i as int]),
                ));
                assert(string_views(out@) =~= video_info_urls(split_spaces(self@).subrange(0, i + 1)));
            }
            i += 1;
        }
        proof {
            assert(split_spaces(self@).subrange(0, split_spaces(self@).len() as int) =~= split_spaces(
                self@,
            ));
        }
        out
    }
}

} // verus!
