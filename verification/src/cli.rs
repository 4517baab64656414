//! Command-line arguments of the server.

use vstd::prelude::*;
use vstd::string::*;
use crate::store::Store;
use crate::text::strings_view;

verus! {

/// Whether an argument names an option (it starts with `--`).
pub open spec fn is_flag(s: Seq<char>) -> bool {
    s.len() >= 2 && s[0] == '-' && s[1] == '-'
}

/// The options among the first `n` arguments: every argument that starts
/// with `--` names an option (without the dashes) whose value is the
/// argument right after it; a later occurrence of a name wins.
pub open spec fn args_map(args: Seq<Seq<char>>, n: int) -> Map<Seq<char>, Seq<char>>
    decreases n,
{
    if n <= 0 {
        Map::empty()
    } else {
        let m = args_map(args, n - 1);
        if is_flag(args[n - 1]) && n < args.len() {
            m.insert(args[n - 1].subrange(2, args[n - 1].len() as int), args[n])
        } else {
            m
        }
    }
}

/// The options given to the server.
#[derive(Debug)]
pub struct Arguments {
    args: Store<String>,
}

impl View for Arguments {
    type V = Map<Seq<char>, Seq<char>>;

    closed spec fn view(&self) -> Map<Seq<char>, Seq<char>> {
        self.args.map().map_values(|v: String| v@)
    }
}

impl Arguments {
    /// Collects the options from the argument list (see [`args_map`]).  An
    /// option name as the last argument has no value and is outside the
    /// domain.
    pub fn new(args: Vec<String>) -> (res: Arguments)
        requires
            !(args@.len() > 0 && is_flag(args@.last()@)),
        ensures
            res@ == args_map(strings_view(args@), args@.len() as int),
    {
        let ghost sv = strings_view(args@);
        let mut store: Store<String> = Store::new();
        let mut i: usize = 0;
        assert(store.map().map_values(|v: String| v@) =~= Map::<Seq<char>, Seq<char>>::empty());
        while i < args.len()
            invariant
                i <= args@.len(),
                sv == strings_view(args@),
                !(args@.len() > 0 && is_flag(args@.last()@)),
                store.map().map_values(|v: String| v@) == args_map(sv, i as int),
            decreases args@.len() - i,
        {
            let s = args[i].as_str();
            let n = s.unicode_len();
            if n >= 2 && s.get_char(0) == '-' && s.get_char(1) == '-' {
                assert(i + 1 < args@.len());
                let key = s.substring_char(2, n).to_owned();
                let value = args[i + 1].clone();
                let ghost before = store.map();
                store.insert(key, value);
                assert(store.map().map_values(|v: String| v@) =~= before.map_values(
                    |v: String| v@,
                ).insert(key@, value@));
            }
            i = i + 1;
        }
        Arguments { args: store }
    }

    /// The value of the option `val`, if it was given.
    pub fn get_arg(&self, val: String) -> (res: Option<&String>)
        ensures
            self@.contains_key(val@) ==> (res matches Some(r) && r@ == self@[val@]),
            !self@.contains_key(val@) ==> res is None,
    {
        self.args.get(&val)
    }
}

} // verus!
