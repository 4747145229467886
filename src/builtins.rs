use vstd::prelude::*;
use std::rc::Rc;
use crate::environment::{lemma_store_view, store_view};
use crate::errors::Errors;
use crate::object::{error_object, obj_view, lemma_objs_push, lemma_objs_view, objs_view, Builtin, Object, Val};
use crate::semantics::{builtin_named, call_builtin};
use crate::token::{chars_of, spells};

verus! {

/// The built-in function of a given name.
pub fn lookup(name: &str) -> (r: Option<Builtin>)
    ensures
        r == builtin_named(name@),
{
    let cs = chars_of(name);
    if spells(&cs, &['l', 'e', 'n']) {
        Some(Builtin::Len)
    } else if spells(&cs, &['f', 'i', 'r', 's', 't']) {
        Some(Builtin::First)
    } else if spells(&cs, &['l', 'a', 's', 't']) {
        Some(Builtin::Last)
    } else if spells(&cs, &['r', 'e', 's', 't']) {
        Some(Builtin::Rest)
    } else if spells(&cs, &['p', 'u', 's', 'h']) {
        Some(Builtin::Push)
    } else {
        None
    }
}

/// The table of built-in functions, by name.
pub fn new() -> (r: Vec<(String, Object)>)
    ensures
        store_view(r@) == seq![
            (seq!['l', 'e', 'n'], Val::Builtin(Builtin::Len)),
            (seq!['f', 'i', 'r', 's', 't'], Val::Builtin(Builtin::First)),
            (seq!['l', 'a', 's', 't'], Val::Builtin(Builtin::Last)),
            (seq!['r', 'e', 's', 't'], Val::Builtin(Builtin::Rest)),
            (seq!['p', 'u', 's', 'h'], Val::Builtin(Builtin::Push)),
        ],
{
    let mut table: Vec<(String, Object)> = Vec::new();
    table.push(("len".to_string(), Object::Builtin { func: Builtin::Len }));
    table.push(("first".to_string(), Object::Builtin { func: Builtin::First }));
    table.push(("last".to_string(), Object::Builtin { func: Builtin::Last }));
    table.push(("rest".to_string(), Object::Builtin { func: Builtin::Rest }));
    table.push(("push".to_string(), Object::Builtin { func: Builtin::Push }));
    proof {
        reveal_strlit("len");
        reveal_strlit("first");
        reveal_strlit("last");
        reveal_strlit("rest");
        reveal_strlit("push");
        lemma_store_view(table@);
        assert(table@.len() == 5);
        assert(table@[0].0@ == seq!['l', 'e', 'n']);
        assert(table@[1].0@ == seq!['f', 'i', 'r', 's', 't']);
        assert(table@[2].0@ == seq!['l', 'a', 's', 't']);
        assert(table@[3].0@ == seq!['r', 'e', 's', 't']);
        assert(table@[4].0@ == seq!['p', 'u', 's', 'h']);
        assert(obj_view(table@[0].1) == Val::Builtin(Builtin::Len));
        assert(store_view(table@) =~= seq![
            (seq!['l', 'e', 'n'], Val::Builtin(Builtin::Len)),
            (seq!['f', 'i', 'r', 's', 't'], Val::Builtin(Builtin::First)),
            (seq!['l', 'a', 's', 't'], Val::Builtin(Builtin::Last)),
            (seq!['r', 'e', 's', 't'], Val::Builtin(Builtin::Rest)),
            (seq!['p', 'u', 's', 'h'], Val::Builtin(Builtin::Push)),
        ]);
    }
    table
}

/// `len(x)`: the byte length of a string or the number of elements of an array.
pub fn len(args: Vec<Object>) -> (r: Object)
    ensures
        r@ == call_builtin(Builtin::Len, objs_view(args@)),
{
    proof {
        lemma_objs_view(args@);
    }
    if args.len() != 1 {
        return error_object(Errors::InvalidNumberOfArguments { got: args.len(), want: 1 });
    }
    match &args[0] {
        Object::String(s) => Object::Integer(s.as_str().len() as i64),
        Object::Array(v) => {
            proof {
                lemma_objs_view((**v)@);
            }
            Object::Integer(v.len() as i64)
        },
        _ => error_object(Errors::LenInvalidTypeError(Box::new(args[0].copy()))),
    }
}

/// `first(arr)`: the first element of an array, `null` when it is empty.
pub fn first(args: Vec<Object>) -> (r: Object)
    ensures
        r@ == call_builtin(Builtin::First, objs_view(args@)),
{
    proof {
        lemma_objs_view(args@);
    }
    if args.len() == 0 {
        return error_object(Errors::InvalidNumberOfArguments { got: 0, want: 1 });
    }
    match &args[0] {
        Object::Array(v) => {
            proof {
                lemma_objs_view((**v)@);
            }
            if v.len() == 0 {
                Object::Null
            } else {
                v[0].copy()
            }
        },
        _ => error_object(Errors::FirstTypeError(Box::new(args[0].copy()))),
    }
}

/// `last(arr)`: the last element of an array, `null` when it is empty.
pub fn last(args: Vec<Object>) -> (r: Object)
    ensures
        r@ == call_builtin(Builtin::Last, objs_view(args@)),
{
    proof {
        lemma_objs_view(args@);
    }
    if args.len() == 0 {
        return error_object(Errors::InvalidNumberOfArguments { got: 0, want: 1 });
    }
    match &args[0] {
        Object::Array(v) => {
            proof {
                lemma_objs_view((**v)@);
            }
            if v.len() == 0 {
                Object::Null
            } else {
                v[v.len() - 1].copy()
            }
        },
        _ => error_object(Errors::LastTypeError(Box::new(args[0].copy()))),
    }
}

/// `rest(arr)`: a new array of every element but the last, `null` when it is empty.
pub fn rest(args: Vec<Object>) -> (r: Object)
    ensures
        r@ == call_builtin(Builtin::Rest, objs_view(args@)),
{
    proof {
        lemma_objs_view(args@);
    }
    if args.len() == 0 {
        return error_object(Errors::InvalidNumberOfArguments { got: 0, want: 1 });
    }
    match &args[0] {
        Object::Array(v) => {
            proof {
                lemma_objs_view((**v)@);
            }
            if v.len() == 0 {
                return Object::Null;
            }
            let mut out: Vec<Object> = Vec::new();
            let mut i: usize = 0;
            while i + 1 < v.len()
                invariant
                    i < v.len(),
                    objs_view((**v)@).len() == v.len(),
                    forall|j: int| 0 <= j < v.len() ==> #[trigger] objs_view((**v)@)[j] == v@[j]@,
                    objs_view(out@) == objs_view((**v)@).take(i as int),
                decreases v.len() - i,
            {
                let o = v[i].copy();
                proof {
                    lemma_objs_push(out@, o);
                    assert(objs_view((**v)@).take(i as int).push(o@) =~= objs_view((**v)@).take(
                        i as int + 1,
                    ));
                }
                out.push(o);
                i = i + 1;
            }
            proof {
                assert(objs_view((**v)@).take(i as int) =~= objs_view((**v)@).drop_last());
            }
            Object::Array(Rc::new(out))
        },
        _ => error_object(Errors::RestTypeError(Box::new(args[0].copy()))),
    }
}

/// `push(arr, x)`: a new array with `x` appended.
pub fn push(args: Vec<Object>) -> (r: Object)
    ensures
        r@ == call_builtin(Builtin::Push, objs_view(args@)),
{
    proof {
        lemma_objs_view(args@);
    }
    if args.len() == 0 {
        return error_object(Errors::InvalidNumberOfArguments { got: 0, want: 2 });
    }
    match &args[0] {
        Object::Array(v) => {
            proof {
                lemma_objs_view((**v)@);
            }
            if args.len() < 2 {
                return error_object(Errors::InvalidNumberOfArguments { got: args.len(), want: 2 });
            }
            let mut out: Vec<Object> = Vec::new();
            let mut i: usize = 0;
            while i < v.len()
                invariant
                    i <= v.len(),
                    objs_view((**v)@).len() == v.len(),
                    forall|j: int| 0 <= j < v.len() ==> #[trigger] objs_view((**v)@)[j] == v@[j]@,
                    objs_view(out@) == objs_view((**v)@).take(i as int),
                decreases v.len() - i,
            {
                let o = v[i].copy();
                proof {
                    lemma_objs_push(out@, o);
                    assert(objs_view((**v)@).take(i as int).push(o@) =~= objs_view((**v)@).take(
                        i as int + 1,
                    ));
                }
                out.push(o);
                i = i + 1;
            }
            let x = args[1].copy();
            proof {
                lemma_objs_push(out@, x);
                assert(objs_view((**v)@).take(v.len() as int) =~= objs_view((**v)@));
            }
            out.push(x);
            Object::Array(Rc::new(out))
        },
        _ => error_object(Errors::PushTypeError(Box::new(args[0].copy()))),
    }
}

/// A built-in function applied to its arguments.
pub fn call(func: Builtin, args: Vec<Object>) -> (r: Object)
    ensures
        r@ == call_builtin(func, objs_view(args@)),
{
    match func {
        Builtin::Len => len(args),
        Builtin::First => first(args),
        Builtin::Last => last(args),
        Builtin::Rest => rest(args),
        Builtin::Push => push(args),
    }
}

} // verus!
