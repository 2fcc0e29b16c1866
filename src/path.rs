use vstd::prelude::*;

verus! {

/// The `/`-separated components of a name, empty ones included.
pub open spec fn components(s: Seq<char>) -> Seq<Seq<char>>
    decreases s.len(),
{
    if s.len() == 0 {
        seq![Seq::empty()]
    } else if s.last() == '/' {
        components(s.drop_last()).push(Seq::empty())
    } else {
        let c = components(s.drop_last());
        c.update(c.len() - 1, c.last().push(s.last()))
    }
}

/// Applies one component to the directories entered so far: an empty
/// component and `.` stay put, `..` leaves the last directory, any other enters
/// it. `None` once a `..` would leave the root.
pub open spec fn step(st: Option<Seq<Seq<char>>>, c: Seq<char>) -> Option<Seq<Seq<char>>> {
    match st {
        None => None,
        Some(st) => if c.len() == 0 || c == seq!['.'] {
            Some(st)
        } else if c == seq!['.', '.'] {
            if st.len() == 0 { None } else { Some(st.drop_last()) }
        } else {
            Some(st.push(c))
        },
    }
}

/// The directories that a sequence of components leads to from the root, or
/// `None` where some prefix holds more `..` than ordinary components.
pub open spec fn resolve(cs: Seq<Seq<char>>) -> Option<Seq<Seq<char>>>
    decreases cs.len(),
{
    if cs.len() == 0 {
        Some(Seq::empty())
    } else {
        step(resolve(cs.drop_last()), cs.last())
    }
}

/// Components joined with `/`.
pub open spec fn join(parts: Seq<Seq<char>>) -> Seq<char>
    decreases parts.len(),
{
    if parts.len() == 0 {
        Seq::empty()
    } else if parts.len() == 1 {
        parts[0]
    } else {
        join(parts.drop_last()) + seq!['/'] + parts.last()
    }
}

/// The path inside the archive that an entry name stands for, with `.`, empty
/// components and each `x/..` pair resolved and a trailing `/` kept; `None`
/// for a name that is absolute, holds a NUL, or leads outside the root.
pub open spec fn normalized_path(s: Seq<char>) -> Option<Seq<char>> {
    if (s.len() > 0 && s[0] == '/') || s.contains('\0') {
        None
    } else {
        match resolve(components(s)) {
            None => None,
            Some(st) => Some(join(st) + if s.len() > 0 && s.last() == '/' && st.len() > 0 {
                seq!['/']
            } else {
                Seq::<char>::empty()
            }),
        }
    }
}

/// A name that stays inside the archive root.
pub open spec fn path_is_safe(s: Seq<char>) -> bool {
    normalized_path(s) is Some
}

/// The directories that a safe name resolves to are plain names: none is
/// empty, `.` or `..`, so the normalized path holds no traversal segment.
pub proof fn lemma_resolved_components_plain(cs: Seq<Seq<char>>)
    ensures
        resolve(cs) matches Some(st) ==> forall|k: int| 0 <= k < st.len() ==> (#[trigger] st[k]).len() > 0
            && st[k] != seq!['.'] && st[k] != seq!['.', '.'],
    decreases cs.len(),
{
    if cs.len() > 0 {
        lemma_resolved_components_plain(cs.drop_last());
        if let Some(prev) = resolve(cs.drop_last()) {
            if let Some(st) = resolve(cs) {
                assert forall|k: int| 0 <= k < st.len() implies (#[trigger] st[k]).len() > 0
                    && st[k] != seq!['.'] && st[k] != seq!['.', '.'] by {
                    if k < prev.len() {
                        assert(st[k] == prev[k]);
                    }
                }
            }
        }
    }
}

/// The views of a sequence of strings.
pub open spec fn views(v: Seq<String>) -> Seq<Seq<char>> {
    Seq::new(v.len(), |k: int| v[k]@)
}

proof fn lemma_components_prefix(s: Seq<char>, start: int, i: int)
    requires
        0 <= start <= i <= s.len(),
        start == 0 || s[start - 1] == '/',
        forall|k: int| start <= k < i ==> s[k] != '/',
    ensures
        components(s.subrange(0, i)) == components(s.subrange(0, start)).drop_last().push(
            s.subrange(start, i),
        ),
    decreases i - start,
{
    let p = s.subrange(0, i);
    if i == start {
        if start == 0 {
            assert(p =~= Seq::<char>::empty());
            assert(s.subrange(start, i) =~= Seq::<char>::empty());
            assert(components(p).drop_last().push(Seq::empty()) =~= components(p));
        } else {
            assert(p.drop_last() =~= s.subrange(0, i - 1));
            assert(s.subrange(start, i) =~= Seq::<char>::empty());
            assert(components(p) == components(p.drop_last()).push(Seq::empty()));
            assert(components(p).drop_last() =~= components(p.drop_last()));
        }
    } else {
        lemma_components_prefix(s, start, i - 1);
        assert(p.drop_last() =~= s.subrange(0, i - 1));
        assert(p.last() == s[i - 1]);
        let c = components(s.subrange(0, i - 1));
        assert(s.subrange(start, i) =~= s.subrange(start, i - 1).push(s[i - 1]));
        assert(components(p) =~= c.update(c.len() - 1, c.last().push(s[i - 1])));
        assert(c.update(c.len() - 1, c.last().push(s[i - 1])) =~= components(s.subrange(0, start)).drop_last().push(
            s.subrange(start, i),
        ));
    }
}

fn is_dot(c: &str) -> (r: bool)
    ensures
        r == (c@ == seq!['.']),
{
    if c.unicode_len() == 1 && c.get_char(0) == '.' {
        assert(c@ =~= seq!['.']);
        true
    } else {
        false
    }
}

fn is_dot_dot(c: &str) -> (r: bool)
    ensures
        r == (c@ == seq!['.', '.']),
{
    if c.unicode_len() == 2 && c.get_char(0) == '.' && c.get_char(1) == '.' {
        assert(c@ =~= seq!['.', '.']);
        true
    } else {
        false
    }
}

fn step_exec(stack: &mut Vec<String>, comp: &str) -> (ok: bool)
    ensures
        ok ==> step(Some(views(old(stack)@)), comp@) == Some(views(final(stack)@)),
        !ok ==> step(Some(views(old(stack)@)), comp@) is None,
{
    if comp.unicode_len() == 0 || is_dot(comp) {
        true
    } else if is_dot_dot(comp) {
        if stack.len() == 0 {
            false
        } else {
            let _ = stack.pop();
            assert(views(stack@) =~= views(old(stack)@).drop_last());
            true
        }
    } else {
        stack.push(String::from_str(comp));
        assert(views(stack@) =~= views(old(stack)@).push(comp@));
        true
    }
}

fn join_exec(stack: &Vec<String>) -> (r: String)
    ensures
        r@ == join(views(stack@)),
{
    let mut r = String::new();
    let mut k: usize = 0;
    while k < stack.len()
        invariant
            k <= stack@.len(),
            r@ == join(views(stack@).subrange(0, k as int)),
        decreases stack@.len() - k,
    {
        let ghost vs = views(stack@);
        proof {
            assert(vs.subrange(0, k + 1).drop_last() =~= vs.subrange(0, k as int));
            assert(vs.subrange(0, k + 1).last() == stack@[k as int]@);
            if k == 0 {
                assert(vs.subrange(0, 1)[0] == stack@[0]@);
            }
        }
        let ghost before = r@;
        proof { reveal_strlit("/"); }
        if k > 0 {
            r.append("/");
        }
        r.append(stack[k].as_str());
        proof {
            if k == 0 {
                assert(r@ =~= join(vs.subrange(0, 1)));
            } else {
                assert(r@ =~= before + seq!['/'] + stack@[k as int]@);
                assert(join(vs.subrange(0, k + 1)) == join(vs.subrange(0, k as int)) + seq!['/']
                    + vs.subrange(0, k + 1).last());
            }
        }
        k = k + 1;
    }
    assert(views(stack@).subrange(0, k as int) =~= views(stack@));
    r
}

/// The listed path of an entry name: the name with `.`, empty components and
/// each `x/..` pair resolved, or `None` for a name that would escape the
/// archive root (absolute, holding NUL, or with more `..` than directories).
pub fn sanitized_path(name: &str) -> (r: Option<String>)
    ensures
        r.is_none() <==> !path_is_safe(name@),
        r matches Some(p) ==> normalized_path(name@) == Some(p@),
{
    let n = name.unicode_len();
    if n > 0 && name.get_char(0) == '/' {
        return None;
    }
    let mut stack: Vec<String> = Vec::new();
    let mut ok = true;
    let mut start: usize = 0;
    let mut i: usize = 0;
    proof {
        assert(name@.subrange(0, 0) =~= Seq::<char>::empty());
        assert(components(name@.subrange(0, 0)).drop_last() =~= Seq::<Seq<char>>::empty());
        assert(views(stack@) =~= Seq::<Seq<char>>::empty());
    }
    while i < n
        invariant
            n == name@.len(),
            0 <= start <= i <= n,
            start == 0 || name@[start - 1] == '/',
            forall|k: int| start <= k < i ==> name@[k] != '/',
            forall|k: int| 0 <= k < i ==> name@[k] != '\0',
            ok ==> resolve(components(name@.subrange(0, start as int)).drop_last()) == Some(views(stack@)),
            !ok ==> resolve(components(name@.subrange(0, start as int)).drop_last()) is None,
        decreases n - i,
    {
        let c = name.get_char(i);
        if c == '\0' {
            assert(name@.contains('\0'));
            return None;
        }
        if c == '/' {
            let ghost old_cs = components(name@.subrange(0, start as int)).drop_last();
            let ghost comp = name@.subrange(start as int, i as int);
            proof {
                lemma_components_prefix(name@, start as int, i as int);
                let p1 = name@.subrange(0, i + 1);
                assert(p1.drop_last() =~= name@.subrange(0, i as int));
                assert(p1.last() == '/');
                assert(components(p1).drop_last() =~= components(name@.subrange(0, i as int)));
                let new_cs = old_cs.push(comp);
                assert(new_cs.drop_last() =~= old_cs);
                assert(resolve(new_cs) == step(resolve(old_cs), comp));
                assert(components(p1).drop_last() == new_cs);
            }
            if ok {
                ok = step_exec(&mut stack, name.substring_char(start, i));
            }
            start = i + 1;
        }
        i = i + 1;
    }
    let ghost old_cs = components(name@.subrange(0, start as int)).drop_last();
    let ghost comp = name@.subrange(start as int, n as int);
    proof {
        lemma_components_prefix(name@, start as int, n as int);
        assert(name@.subrange(0, n as int) =~= name@);
        let new_cs = old_cs.push(comp);
        assert(new_cs.drop_last() =~= old_cs);
        assert(resolve(new_cs) == step(resolve(old_cs), comp));
        assert(components(name@) == new_cs);
    }
    if ok {
        ok = step_exec(&mut stack, name.substring_char(start, n));
    }
    assert(!name@.contains('\0'));
    if !ok {
        return None;
    }
    assert(resolve(components(name@)) == Some(views(stack@)));
    let mut r = join_exec(&stack);
    proof { reveal_strlit("/"); }
    if n > 0 && name.get_char(n - 1) == '/' && stack.len() > 0 {
        assert(name@.last() == '/');
        r.append("/");
        assert("/"@ =~= seq!['/']);
    } else {
        assert(r@ + Seq::<char>::empty() =~= r@);
    }
    Some(r)
}

/// Whether an entry name may be listed as a path inside the archive.
pub fn is_safe_path(name: &str) -> (r: bool)
    ensures
        r == path_is_safe(name@),
{
    sanitized_path(name).is_some()
}

} // verus!
