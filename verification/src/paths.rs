//! Paths as text, with `/` between their parts.

use vstd::prelude::*;
use vstd::string::*;

use crate::text::begins_with;
use crate::text::chars_of;
use crate::text::starts_with;

verus! {

/// `name` below `base`. An absolute `name` stands for itself.
pub open spec fn join_path(base: Seq<char>, name: Seq<char>) -> Seq<char> {
    if starts_with(name, "/"@) || base.len() == 0 {
        name
    } else if base.last() == '/' {
        base + name
    } else {
        base + "/"@ + name
    }
}

/// `name` below `base`. An absolute `name` stands for itself.
pub fn path_join(base: &str, name: &str) -> (r: String)
    ensures
        r@ == join_path(base@, name@),
{
    let b = chars_of(base);
    if begins_with(name, "/") || b.len() == 0 {
        return name.to_owned();
    }
    let mut r = base.to_owned();
    if b[b.len() - 1] != '/' {
        r.append("/");
    }
    r.append(name);
    r
}

/// Law: a name below a base is the base, one slash and the name, whether the base ends in a slash or
/// not. An absolute name, and a name below an empty base, stands for itself.
pub proof fn law_join(base: &str, name: &str, r: String)
    requires
        call_ensures(path_join, (base, name), r),
    ensures
        name@.len() > 0 && name@[0] == '/' ==> r@ == name@,
        base@.len() == 0 ==> r@ == name@,
        base@.len() > 0 && !(name@.len() > 0 && name@[0] == '/') ==> {
            let b = if base@.last() == '/' {
                base@.drop_last()
            } else {
                base@
            };
            &&& r@.len() == b.len() + 1 + name@.len()
            &&& r@.take(b.len() as int) == b
            &&& r@[b.len() as int] == '/'
            &&& r@.skip((b.len() + 1) as int) == name@
        },
{
    reveal_strlit("/");
    if name@.len() > 0 {
        assert(name@.take(1) =~= seq![name@[0]]);
        assert("/"@ =~= seq!['/']);
        assert(seq![name@[0]][0] == name@[0]);
        assert(name@.take(1) == "/"@ <==> name@[0] == '/') by {
            if name@.take(1) == "/"@ {
                assert(name@.take(1)[0] == '/');
            }
        }
    }
    if base@.len() > 0 && !(name@.len() > 0 && name@[0] == '/') {
        assert(!starts_with(name@, "/"@));
        let b = if base@.last() == '/' {
            base@.drop_last()
        } else {
            base@
        };
        assert(r@ =~= b + seq!['/'] + name@);
        assert(r@.take(b.len() as int) =~= b);
        assert(r@.skip((b.len() + 1) as int) =~= name@);
    }
}

} // verus!
