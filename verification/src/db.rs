//! Persistence settings and the on-disk form of the stored pairs.

use vstd::prelude::*;
use vstd::string::*;
use crate::text::push_char;

verus! {

/// `dir` joined with `name` as a Unix path: an absolute `name` replaces
/// `dir`; otherwise a `/` separates them unless `dir` is empty or already
/// ends with one.
pub open spec fn join_path(dir: Seq<char>, name: Seq<char>) -> Seq<char> {
    if name.len() > 0 && name[0] == '/' {
        name
    } else if dir.len() > 0 && dir.last() != '/' {
        dir.push('/') + name
    } else {
        dir + name
    }
}

/// Where the store is saved.
#[derive(Debug)]
pub struct Db {
    db_file: String,
}

impl View for Db {
    type V = Seq<char>;

    /// The path of the file.
    closed spec fn view(&self) -> Seq<char> {
        self.db_file@
    }
}

/// The bytes of the saved form of `pairs`: each key and each value on a line
/// of its own, in order.
pub open spec fn spec_encode_entries(pairs: Seq<(Seq<char>, Seq<char>)>) -> Seq<u8>
    decreases pairs.len(),
{
    if pairs.len() == 0 {
        Seq::empty()
    } else {
        spec_encode_entries(pairs.drop_last()) + vstd::utf8::encode_utf8(pairs.last().0) + seq![
            10u8,
        ] + vstd::utf8::encode_utf8(pairs.last().1) + seq![10u8]
    }
}

/// The views of a sequence of string pairs.
pub open spec fn pairs_view(v: Seq<(String, String)>) -> Seq<(Seq<char>, Seq<char>)> {
    v.map_values(|p: (String, String)| (p.0@, p.1@))
}

impl Db {
    /// The settings for the file `dbname` in the directory `dir`.
    pub fn new(dir: String, dbname: String) -> (res: Db)
        ensures
            res@ == join_path(dir@, dbname@),
    {
        let absolute = dbname.as_str().unicode_len() > 0 && dbname.as_str().get_char(0) == '/';
        if absolute {
            return Db { db_file: dbname };
        }
        let n = dir.as_str().unicode_len();
        let mut path = dir;
        if n > 0 && path.as_str().get_char(n - 1) != '/' {
            push_char(&mut path, '/');
        }
        path.append(dbname.as_str());
        Db { db_file: path }
    }

    /// The path of the file.
    pub fn db_file(&self) -> (res: &str)
        ensures
            res@ == self@,
    {
        self.db_file.as_str()
    }

    /// The bytes that saving `pairs` writes to the file.
    pub fn encode_entries(pairs: &Vec<(String, String)>) -> (res: Vec<u8>)
        ensures
            res@ == spec_encode_entries(pairs_view(pairs@)),
    {
        let mut out: Vec<u8> = Vec::new();
        let mut i: usize = 0;
        while i < pairs.len()
            invariant
                i <= pairs@.len(),
                out@ == spec_encode_entries(pairs_view(pairs@).take(i as int)),
            decreases pairs@.len() - i,
        {
            let ghost prefix = pairs_view(pairs@).take(i + 1);
            assert(prefix.drop_last() =~= pairs_view(pairs@).take(i as int));
            let mut k = vstd::slice::slice_to_vec(pairs[i].0.as_str().as_bytes());
            out.append(&mut k);
            out.push(10u8);
            let mut v = vstd::slice::slice_to_vec(pairs[i].1.as_str().as_bytes());
            out.append(&mut v);
            out.push(10u8);
            i = i + 1;
        }
        assert(pairs_view(pairs@).take(pairs@.len() as int) =~= pairs_view(pairs@));
        out
    }
}

} // verus!
