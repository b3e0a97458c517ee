use vstd::prelude::*;
use vstd::string::*;
use crate::metadata::{MetaKeyValue, MetaValue};
use crate::timestamp::iso8601;
use crate::text::{decimal, push_decimal};
use crate::unsorted_set::UnsortedSet;

verus! {

/// The severity of a log record.
#[derive(Copy, Clone, Debug, PartialEq, Eq, Structural)]
pub enum Level {
    Emergency,
    Alert,
    Critical,
    Error,
    Warning,
    Notice,
    Info,
    Debug,
}

/// The text of a metadata value.
pub open spec fn meta_text(v: MetaValue) -> Seq<char> {
    match v {
        MetaValue::OwnedString(s) => s@,
        MetaValue::StaticStr(s) => s@,
        MetaValue::Unsigned(n) => decimal(n as nat),
        MetaValue::Signed(n) => if n < 0 { seq!['-'] + decimal((-n) as nat) } else { decimal(n as nat) },
        MetaValue::Pid(p) => decimal(p.0 as nat),
        MetaValue::Timestamp(t) => iso8601(t),
    }
}

/// Appends the text of `v`.
pub fn push_meta_text(out: &mut String, v: &MetaValue)
    ensures
        final(out)@ == old(out)@ + meta_text(*v),
{
    match v {
        MetaValue::OwnedString(s) => out.append(s.as_str()),
        MetaValue::StaticStr(s) => out.append(s),
        MetaValue::Unsigned(n) => push_decimal(out, *n),
        MetaValue::Signed(n) => {
            if *n < 0 {
                proof { reveal_strlit("-"); }
                out.append("-");
                let m: u64 = (-(*n + 1)) as u64 + 1;
                assert(m == -n);
                push_decimal(out, m);
                assert(final(out)@ =~= old(out)@ + meta_text(*v));
            } else {
                push_decimal(out, *n as u64);
            }
        },
        MetaValue::Pid(p) => push_decimal(out, p.0),
        MetaValue::Timestamp(t) => {
            let s = t.to_iso8601();
            out.append(s.as_str());
        },
    }
}

/// The value of the first entry with key `key`.
pub open spec fn lookup_value(values: Seq<MetaKeyValue>, key: Seq<char>) -> Option<MetaValue>
    decreases values.len(),
{
    if values.len() == 0 {
        None
    } else if values[0].key@ == key {
        Some(values[0].value)
    } else {
        lookup_value(values.drop_first(), key)
    }
}

/// Position of the first `}` at or after `j`; the length when none.
pub open spec fn find_close(msg: Seq<char>, j: int) -> int
    decreases msg.len() - j,
{
    if j >= msg.len() {
        msg.len() as int
    } else if msg[j] == '}' {
        j
    } else {
        find_close(msg, j + 1)
    }
}

pub open spec fn flush(pending: bool) -> Seq<char> {
    if pending { seq![' '] } else { Seq::empty() }
}

/// The text of `msg` from position `i`, with `{key}` placeholders filled
/// from `values`. A key is filled at its first placeholder only; a
/// placeholder whose key has no value, or was filled already, is removed
/// together with the space right before it (`pending` says that such a
/// space is held back). `{{` and `}}` stand for braces; an unclosed `{`
/// ends the text.
pub open spec fn render(msg: Seq<char>, i: int, values: Seq<MetaKeyValue>, used: Seq<Seq<char>>, pending: bool) -> Seq<char>
    decreases msg.len() - i,
{
    if i < 0 || i >= msg.len() {
        flush(pending)
    } else if msg[i] == '{' && i + 1 < msg.len() && msg[i + 1] == '{' {
        flush(pending) + seq!['{'] + render(msg, i + 2, values, used, false)
    } else if msg[i] == '{' {
        let j = find_close(msg, i + 1);
        if j >= msg.len() || j < i + 1 {
            flush(pending)
        } else {
            let key = msg.subrange(i + 1, j);
            let next = if j + 1 < msg.len() && msg[j + 1] == '}' { j + 2 } else { j + 1 };
            match lookup_value(values, key) {
                Some(v) => if !used.contains(key) {
                    flush(pending) + meta_text(v) + render(msg, next, values, used.push(key), false)
                } else {
                    render(msg, next, values, used, false)
                },
                None => render(msg, next, values, used, false),
            }
        }
    } else if msg[i] == '}' && i + 1 < msg.len() && msg[i + 1] == '}' {
        flush(pending) + seq!['}'] + render(msg, i + 2, values, used, false)
    } else if msg[i] == ' ' {
        flush(pending) + render(msg, i + 1, values, used, true)
    } else {
        flush(pending) + seq![msg[i]] + render(msg, i + 1, values, used, false)
    }
}

/// The first entry of `values` with key `key`.
fn find_key<'a>(key: &str, values: &'a Vec<MetaKeyValue>) -> (r: Option<&'a MetaKeyValue>)
    ensures
        match r {
            Some(m) => lookup_value(values@, key@) == Some(m.value),
            None => lookup_value(values@, key@) is None,
        },
{
    let owned = key.to_owned();
    let mut i: usize = 0;
    assert(values@.subrange(0, values@.len() as int) =~= values@);
    while i < values.len()
        invariant
            i <= values@.len(),
            owned@ == key@,
            lookup_value(values@, key@) == lookup_value(values@.subrange(i as int, values@.len() as int), key@),
        decreases values@.len() - i,
    {
        let ghost rest = values@.subrange(i as int, values@.len() as int);
        assert(rest.drop_first() =~= values@.subrange(i as int + 1, values@.len() as int));
        if values[i].key == owned {
            return Some(&values[i]);
        }
        i = i + 1;
    }
    None
}

/// Whether `key` is among `used`.
fn is_used(used: &Vec<String>, key: &String) -> (r: bool)
    ensures
        r == used@.map_values(|s: String| s@).contains(key@),
{
    let mut i: usize = 0;
    while i < used.len()
        invariant
            i <= used@.len(),
            forall|j: int| 0 <= j < i ==> (#[trigger] used@[j])@ != key@,
        decreases used@.len() - i,
    {
        if used[i] == *key {
            assert(used@.map_values(|s: String| s@)[i as int] == key@);
            return true;
        }
        i = i + 1;
    }
    proof {
        if used@.map_values(|s: String| s@).contains(key@) {
            let mv = used@.map_values(|s: String| s@);
            let j = choose|j: int| 0 <= j < mv.len() && #[trigger] mv[j] == key@;
            assert(used@[j]@ == key@);
        }
    }
    false
}

/// Fills the `{key}` placeholders of a log message from `values`.
pub fn parse<const N: usize>(msg: &str, values: &UnsortedSet<MetaKeyValue, N>) -> (r: String)
    ensures
        r@ == render(msg@, 0, values.items(), Seq::empty(), false),
{
    let vals = values.iter();
    let n = msg.unicode_len();
    let mut out = String::new();
    let mut used: Vec<String> = Vec::new();
    let mut pending = false;
    let mut i: usize = 0;
    proof {
        reveal_strlit(" ");
        reveal_strlit("{");
        reveal_strlit("}");
        assert(used@.map_values(|s: String| s@) =~= Seq::<Seq<char>>::empty());
        assert(out@ + render(msg@, 0, vals@, Seq::empty(), false) =~= render(msg@, 0, vals@, Seq::empty(), false));
    }
    while i < n
        invariant
            n == msg@.len(),
            i <= n,
            vals@ == values.items(),
            out@ + render(msg@, i as int, vals@, used@.map_values(|s: String| s@), pending)
                == render(msg@, 0, values.items(), Seq::empty(), false),
        decreases n - i,
    {
        let ghost u = used@.map_values(|s: String| s@);
        let ghost held = pending;
        let ghost i0 = i as int;
        let ghost o0 = out@;
        let ghost m = msg@;
        proof {
            reveal_strlit(" ");
            reveal_strlit("{");
            reveal_strlit("}");
            assert(" "@ =~= seq![' ']);
            assert("{"@ =~= seq!['{']);
            assert("}"@ =~= seq!['}']);
        }
        let c = msg.get_char(i);
        let open_next = i + 1 < n && msg.get_char(i + 1) == '{';
        let close_next = i + 1 < n && msg.get_char(i + 1) == '}';
        if c == '{' && open_next {
            if pending {
                out.append(" ");
            }
            out.append("{");
            pending = false;
            i = i + 2;
            assert(out@ + render(m, i as int, vals@, u, false) =~= o0 + render(m, i0, vals@, u, held));
        } else if c == '{' {
            let mut j: usize = i + 1;
            while j < n && msg.get_char(j) != '}'
                invariant
                    n == msg@.len(),
                    i0 + 1 <= j <= n,
                    find_close(msg@, i0 + 1) == find_close(msg@, j as int),
                decreases n - j,
            {
                j = j + 1;
            }
            if j >= n {
                assert(find_close(msg@, j as int) == n);
                i = n;
                assert(out@ + render(m, i as int, vals@, u, pending) =~= o0 + render(m, i0, vals@, u, held));
            } else {
                assert(find_close(msg@, j as int) == j);
                let key = msg.substring_char(i + 1, j).to_owned();
                let next = if j + 1 < n && msg.get_char(j + 1) == '}' { j + 2 } else { j + 1 };
                let ghost kv = m.subrange(i0 + 1, j as int);
                assert(key@ == kv);
                match find_key(key.as_str(), &vals) {
                    Some(entry) => {
                        if !is_used(&used, &key) {
                            if pending {
                                out.append(" ");
                            }
                            push_meta_text(&mut out, &entry.value);
                            used.push(key);
                            assert(used@.map_values(|s: String| s@) =~= u.push(kv));
                            assert(out@ + render(m, next as int, vals@, u.push(kv), false)
                                =~= o0 + render(m, i0, vals@, u, held));
                        } else {
                            assert(out@ + render(m, next as int, vals@, u, false) =~= o0 + render(m, i0, vals@, u, held));
                        }
                    },
                    None => {
                        assert(out@ + render(m, next as int, vals@, u, false) =~= o0 + render(m, i0, vals@, u, held));
                    },
                }
                pending = false;
                i = next;
            }
        } else if c == '}' && close_next {
            if pending {
                out.append(" ");
            }
            out.append("}");
            pending = false;
            i = i + 2;
            assert(out@ + render(m, i as int, vals@, u, false) =~= o0 + render(m, i0, vals@, u, held));
        } else if c == ' ' {
            if pending {
                out.append(" ");
            }
            pending = true;
            i = i + 1;
            assert(out@ + render(m, i as int, vals@, u, true) =~= o0 + render(m, i0, vals@, u, held));
        } else {
            if pending {
                out.append(" ");
            }
            let one = msg.substring_char(i, i + 1);
            assert(one@ =~= seq![m[i0]]);
            out.append(one);
            pending = false;
            i = i + 1;
            assert(out@ + render(m, i as int, vals@, u, false) =~= o0 + render(m, i0, vals@, u, held));
        }
    }
    let ghost o1 = out@;
    if pending {
        out.append(" ");
    }
    assert(out@ =~= o1 + render(msg@, i as int, vals@, used@.map_values(|s: String| s@), pending));
    out
}

} // verus!
