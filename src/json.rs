use vstd::prelude::*;

verus! {

#[verifier::external_type_specification]
#[verifier::external_body]
pub struct ExNumber(serde_json::Number);

#[verifier::external_type_specification]
#[verifier::external_body]
pub struct ExValue(serde_json::Value);

#[verifier::external_type_specification]
#[verifier::external_body]
pub struct ExJsonError(serde_json::Error);

/// A JSON document. Object members are kept as a list of (name, value)
/// pairs; a well-formed document has no name twice in one object.
#[derive(Debug, PartialEq)]
pub enum Json {
    Null,
    Bool(bool),
    Number(serde_json::Number),
    Str(String),
    Array(Vec<Json>),
    Object(Vec<(String, Json)>),
}

/// The mathematical value of a JSON document: an object is a finite map
/// from member names to values.
pub enum JsonView {
    Null,
    Bool(bool),
    Number(serde_json::Number),
    Str(Seq<char>),
    Array(Seq<JsonView>),
    Object(Map<Seq<char>, JsonView>),
}

pub open spec fn json_view(j: Json) -> JsonView
    decreases j,
{
    match j {
        Json::Null => JsonView::Null,
        Json::Bool(b) => JsonView::Bool(b),
        Json::Number(n) => JsonView::Number(n),
        Json::Str(s) => JsonView::Str(s@),
        Json::Array(v) => JsonView::Array(items_view(v@)),
        Json::Object(v) => JsonView::Object(members_view(v@)),
    }
}

pub open spec fn items_view(s: Seq<Json>) -> Seq<JsonView>
    decreases s,
{
    if s.len() == 0 {
        Seq::empty()
    } else {
        items_view(s.subrange(0, s.len() - 1)).push(json_view(s[s.len() - 1]))
    }
}

/// The map that a member list stands for.
pub open spec fn members_view(s: Seq<(String, Json)>) -> Map<Seq<char>, JsonView>
    decreases s,
{
    if s.len() == 0 {
        Map::empty()
    } else {
        members_view(s.subrange(0, s.len() - 1)).insert(
            s[s.len() - 1].0@,
            json_view(s[s.len() - 1].1),
        )
    }
}

impl View for Json {
    type V = JsonView;

    open spec fn view(&self) -> JsonView {
        json_view(*self)
    }
}

/// No two members of the list share a name.
pub open spec fn names_distinct(s: Seq<(String, Json)>) -> bool {
    forall|i: int, j: int| 0 <= i < j < s.len() ==> s[i].0@ != s[j].0@
}

/// Well-formed: no object, at any depth, names a member twice.
pub open spec fn json_wf(j: Json) -> bool
    decreases j,
{
    match j {
        Json::Array(v) => forall|i: int| 0 <= i < v.len() ==> json_wf(#[trigger] v@[i]),
        Json::Object(v) => names_distinct(v@) && forall|i: int|
            0 <= i < v.len() ==> json_wf(#[trigger] v@[i].1),
        _ => true,
    }
}

/// Merge-patch of `patch` onto `target`: two objects merge member by member,
/// a member missing from the target is added; any other patch value replaces
/// the target value whole.
pub open spec fn merge_patch(target: JsonView, patch: JsonView) -> JsonView
    decreases patch,
{
    match patch {
        JsonView::Object(pm) => match target {
            JsonView::Object(tm) => JsonView::Object(
                Map::new(
                    |k: Seq<char>| tm.contains_key(k) || pm.contains_key(k),
                    |k: Seq<char>|
                        if pm.contains_key(k) {
                            if tm.contains_key(k) {
                                merge_patch(tm[k], pm[k])
                            } else {
                                pm[k]
                            }
                        } else {
                            tm[k]
                        },
                ),
            ),
            _ => patch,
        },
        _ => patch,
    }
}

/// Member-wise merge of two objects, as `merge_patch` does it.
pub open spec fn merge_members(
    tm: Map<Seq<char>, JsonView>,
    pm: Map<Seq<char>, JsonView>,
) -> Map<Seq<char>, JsonView> {
    Map::new(
        |k: Seq<char>| tm.contains_key(k) || pm.contains_key(k),
        |k: Seq<char>|
            if pm.contains_key(k) {
                if tm.contains_key(k) {
                    merge_patch(tm[k], pm[k])
                } else {
                    pm[k]
                }
            } else {
                tm[k]
            },
    )
}

/// Merging a value onto itself gives the value back.
pub proof fn lemma_merge_self(x: JsonView)
    ensures
        merge_patch(x, x) == x,
    decreases x,
{
    if let JsonView::Object(m) = x {
        assert forall|k: Seq<char>| m.contains_key(k) implies merge_patch(m[k], m[k]) == m[k] by {
            lemma_merge_self(m[k]);
        }
        assert(merge_patch(x, x)->Object_0 =~= m);
    }
}

/// Applying the same merge-patch a second time changes nothing.
pub proof fn lemma_merge_idempotent(target: JsonView, patch: JsonView)
    ensures
        merge_patch(merge_patch(target, patch), patch) == merge_patch(target, patch),
    decreases patch,
{
    if let JsonView::Object(pm) = patch {
        if let JsonView::Object(tm) = target {
            let r = merge_patch(target, patch);
            let rm = r->Object_0;
            assert forall|k: Seq<char>| pm.contains_key(k) implies merge_patch(rm[k], pm[k])
                == rm[k] by {
                if tm.contains_key(k) {
                    lemma_merge_idempotent(tm[k], pm[k]);
                } else {
                    lemma_merge_self(pm[k]);
                }
            }
            assert(merge_patch(r, patch)->Object_0 =~= rm);
        } else {
            lemma_merge_self(patch);
        }
    }
}

/// An empty object as patch leaves an object unchanged.
pub proof fn lemma_merge_empty_patch(target: JsonView)
    requires
        target is Object,
    ensures
        merge_patch(target, JsonView::Object(Map::empty())) == target,
{
    assert(merge_patch(target, JsonView::Object(Map::empty()))->Object_0 =~= target->Object_0);
}

/// A member that the patch sets to null is null in the result: it is
/// overwritten, not skipped.
pub proof fn lemma_merge_null_member(target: JsonView, patch: JsonView, name: Seq<char>)
    requires
        patch matches JsonView::Object(pm) && pm.contains_key(name) && pm[name] == JsonView::Null,
    ensures
        merge_patch(target, patch) matches JsonView::Object(rm) && rm.contains_key(name)
            && rm[name] == JsonView::Null,
{
    if let JsonView::Object(tm) = target {
        assert(merge_patch(tm[name], JsonView::Null) == JsonView::Null);
    }
}

/// A member of an object that the patch does not name keeps its value.
pub proof fn lemma_merge_keeps_unnamed(target: JsonView, patch: JsonView, name: Seq<char>)
    requires
        target matches JsonView::Object(tm) && tm.contains_key(name),
        patch matches JsonView::Object(pm) && !pm.contains_key(name),
    ensures
        merge_patch(target, patch) matches JsonView::Object(rm) && rm.contains_key(name)
            && rm[name] == target->Object_0[name],
{
}

/// Each listed member is in the map with its value, and the map holds
/// nothing else.
pub proof fn lemma_members_view(s: Seq<(String, Json)>)
    requires
        names_distinct(s),
    ensures
        forall|i: int|
            0 <= i < s.len() ==> #[trigger] members_view(s).contains_key(s[i].0@)
                && members_view(s)[s[i].0@] == json_view(s[i].1),
        forall|k: Seq<char>|
            #[trigger] members_view(s).contains_key(k) ==> exists|i: int|
                0 <= i < s.len() && s[i].0@ == k,
    decreases s.len(),
{
    if s.len() > 0 {
        let rest = s.subrange(0, s.len() - 1);
        assert(names_distinct(rest));
        lemma_members_view(rest);
        assert forall|k: Seq<char>| #[trigger] members_view(s).contains_key(k) implies exists|i: int|
            0 <= i < s.len() && s[i].0@ == k by {
            if k != s[s.len() - 1].0@ {
                let i = choose|i: int| 0 <= i < rest.len() && rest[i].0@ == k;
                assert(s[i] == rest[i]);
            }
        }
        assert forall|i: int| 0 <= i < s.len() implies #[trigger] members_view(s).contains_key(s[i].0@)
            && members_view(s)[s[i].0@] == json_view(s[i].1) by {
            if i < s.len() - 1 {
                assert(s[i] == rest[i]);
            }
        }
    }
}

/// Replacing the value of a member that is present updates the map at its name.
proof fn lemma_members_update(s: Seq<(String, Json)>, i: int, e: (String, Json))
    requires
        names_distinct(s),
        0 <= i < s.len(),
        e.0@ == s[i].0@,
    ensures
        names_distinct(s.update(i, e)),
        members_view(s.update(i, e)) == members_view(s).insert(e.0@, json_view(e.1)),
{
    let s2 = s.update(i, e);
    assert(names_distinct(s2)) by {
        assert forall|a: int, b: int| 0 <= a < b < s2.len() implies s2[a].0@ != s2[b].0@ by {
            assert(s2[a].0@ == s[a].0@);
            assert(s2[b].0@ == s[b].0@);
        }
    }
    lemma_members_view(s);
    lemma_members_view(s2);
    let m1 = members_view(s2);
    let m2 = members_view(s).insert(e.0@, json_view(e.1));
    assert forall|k: Seq<char>| m1.contains_key(k) <==> m2.contains_key(k) by {
        if m1.contains_key(k) {
            let a = choose|a: int| 0 <= a < s2.len() && s2[a].0@ == k;
            if a != i {
                assert(s2[a] == s[a]);
            }
        }
        if m2.contains_key(k) {
            if k == e.0@ {
                assert(s2[i] == e);
            } else {
                let a = choose|a: int| 0 <= a < s.len() && s[a].0@ == k;
                assert(s2[a] == s[a]);
            }
        }
    }
    assert forall|k: Seq<char>| m1.contains_key(k) implies m1[k] == m2[k] by {
        let a = choose|a: int| 0 <= a < s2.len() && s2[a].0@ == k;
        if a != i {
            assert(s2[a] == s[a]);
        } else {
            assert(s2[i] == e);
        }
    }
    assert(m1 =~= m2);
}

fn find_member(v: &Vec<(String, Json)>, name: &String) -> (r: Option<usize>)
    ensures
        r matches Some(i) ==> i < v@.len() && v@[i as int].0@ == name@,
        r is None ==> forall|i: int| 0 <= i < v@.len() ==> v@[i].0@ != name@,
{
    let mut i: usize = 0;
    while i < v.len()
        invariant
            i <= v.len(),
            forall|j: int| 0 <= j < i ==> v@[j].0@ != name@,
        decreases v.len() - i,
    {
        if v[i].0 == *name {
            return Some(i);
        }
        i = i + 1;
    }
    None
}

fn merge_values(target: Json, patch: Json) -> (r: Json)
    requires
        json_wf(target),
        json_wf(patch),
    ensures
        json_wf(r),
        r@ == merge_patch(target@, patch@),
    decreases patch,
{
    let ghost whole = patch;
    let ghost start = target;
    match patch {
        Json::Object(mut pv) => match target {
            Json::Object(mut tv) => {
                let ghost pvec = pv;
                let ghost pv0 = pv@;
                let ghost tm = members_view(tv@);
                let n = pv.len();
                let mut j: usize = 0;
                assert(pv@ =~= pv0.subrange(0, n as int));
                assert(pv0.subrange(0, 0) =~= Seq::<(String, Json)>::empty());
                assert(members_view(tv@) =~= merge_members(tm, members_view(pv0.subrange(0, 0))));
                while j < n
                    invariant
                        j <= n == pv0.len(),
                        whole == Json::Object(pvec),
                        whole == patch,
                        pvec@ == pv0,
                        pv@ == pv0.subrange(j as int, n as int),
                        names_distinct(pv0),
                        forall|i: int| 0 <= i < pv0.len() ==> json_wf(#[trigger] pv0[i].1),
                        names_distinct(tv@),
                        forall|i: int| 0 <= i < tv@.len() ==> json_wf(#[trigger] tv@[i].1),
                        members_view(tv@) == merge_members(tm, members_view(pv0.subrange(0, j as int))),
                    decreases n - j,
                {
                    let ghost pj = members_view(pv0.subrange(0, j as int));
                    let (k, v) = pv.remove(0);
                    let ghost kv = k@;
                    let ghost vv = v@;
                    assert((k, v) == pv0[j as int]);
                    assert(pv0.subrange(0, j + 1).subrange(0, j as int) =~= pv0.subrange(0, j as int));
                    assert(members_view(pv0.subrange(0, j + 1)) == pj.insert(kv, vv));
                    proof {
                        assert(names_distinct(pv0.subrange(0, j as int)));
                        lemma_members_view(pv0.subrange(0, j as int));
                        if pj.contains_key(k@) {
                            let a = choose|a: int| 0 <= a < j && pv0.subrange(0, j as int)[a].0@ == k@;
                            assert(pv0[a].0@ == pv0[j as int].0@);
                        }
                        lemma_members_view(tv@);
                    }
                    let ghost before = tv@;
                    match find_member(&tv, &k) {
                        Some(i) => {
                            let (k0, old) = tv.remove(i);
                            assert(before[i as int] == (k0, old));
                            proof {
                                assert(decreases_to!(whole => whole->Object_0));
                                assert(whole->Object_0 == pvec);
                                assert(decreases_to!(pvec => pvec[j as int]));
                                assert(decreases_to!(pvec[j as int] => pvec[j as int].1));
                                assert(pvec[j as int].1 == v);
                                assert(decreases_to!(whole => v));
                            }
                            let m = merge_values(old, v);
                            tv.insert(i, (k0, m));
                            assert(tv@ =~= before.update(i as int, (k0, m)));
                            proof {
                                lemma_members_update(before, i as int, (k0, m));
                                assert(members_view(before).contains_key(k@));
                                assert(members_view(before)[k@] == old@);
                                assert(tm.contains_key(k@));
                                assert(tm[k@] == old@);
                            }
                            proof {
                                let mm = merge_members(tm, pj);
                                let mm2 = merge_members(tm, pj.insert(kv, vv));
                                assert(members_view(tv@) == mm.insert(kv, m@));
                                assert(mm2.contains_key(kv));
                                assert(mm2[kv] == merge_patch(tm[kv], vv));
                                assert forall|x: Seq<char>| x != kv implies mm.contains_key(x)
                                    == mm2.contains_key(x) && (mm.contains_key(x) ==> mm[x]
                                    == mm2[x]) by {
                                    assert(pj.insert(kv, vv).contains_key(x) == pj.contains_key(x));
                                }
                                assert(mm.insert(kv, m@) =~= mm2);
                            }
                            assert(members_view(tv@) == merge_members(
                                tm,
                                members_view(pv0.subrange(0, j + 1)),
                            ));
                        },
                        None => {
                            tv.push((k, v));
                            assert(tv@.subrange(0, tv@.len() - 1) =~= before);
                            assert(names_distinct(tv@));
                            proof {
                                let mm = merge_members(tm, pj);
                                let mm2 = merge_members(tm, pj.insert(kv, vv));
                                assert(tv@[tv@.len() - 1] == (k, v));
                                assert(members_view(tv@) == members_view(before).insert(kv, vv));
                                assert(!mm.contains_key(kv));
                                assert(!tm.contains_key(kv));
                                assert(mm2[kv] == vv);
                                assert forall|x: Seq<char>| x != kv implies mm.contains_key(x)
                                    == mm2.contains_key(x) && (mm.contains_key(x) ==> mm[x]
                                    == mm2[x]) by {
                                    assert(pj.insert(kv, vv).contains_key(x) == pj.contains_key(x));
                                }
                                assert(mm.insert(kv, vv) =~= mm2);
                            }
                            assert(members_view(tv@) == merge_members(
                                tm,
                                members_view(pv0.subrange(0, j + 1)),
                            ));
                        },
                    }
                    j = j + 1;
                }
                assert(pv0.subrange(0, n as int) =~= pv0);
                let r = Json::Object(tv);
                assert(start@ == JsonView::Object(tm));
                assert(whole@ == JsonView::Object(members_view(pv0)));
                assert(merge_patch(start@, whole@)->Object_0 =~= merge_members(
                    tm,
                    members_view(pv0),
                ));
                r
            },
            _ => Json::Object(pv),
        },
        other => other,
    }
}

/// Applies `patch` to `target` in place by merge-patch: objects merge member
/// by member, members absent from the target are inserted, and every other
/// patch value (null, scalar, array, or a differently typed value) replaces
/// the target value whole.
pub fn deep_merge(target: &mut Json, patch: Json)
    requires
        json_wf(*old(target)),
        json_wf(patch),
    ensures
        json_wf(*final(target)),
        final(target)@ == merge_patch(old(target)@, patch@),
{
    let mut current = Json::Null;
    std::mem::swap(target, &mut current);
    *target = merge_values(current, patch);
}

/// A JSON array of strings.
pub open spec fn string_array(items: Seq<Seq<char>>) -> JsonView {
    JsonView::Array(items.map_values(|k: Seq<char>| JsonView::Str(k)))
}

/// The strings of a JSON array that holds strings only.
pub open spec fn string_list_of(v: JsonView) -> Option<Seq<Seq<char>>> {
    match v {
        JsonView::Array(items) => if forall|i: int| 0 <= i < items.len() ==> #[trigger] items[i] is Str {
            Some(items.map_values(|x: JsonView| x->Str_0))
        } else {
            None
        },
        _ => None,
    }
}

/// The document that serde_json reads from a JSON text, if the text is JSON.
pub uninterp spec fn parsed_json(text: Seq<char>) -> Option<JsonView>;

/// The JSON text that serde_json writes for a document.
pub uninterp spec fn json_text(value: JsonView) -> Seq<char>;

/// Relies on serde_json's `Value` enum, whose variants are matched one for one.
#[verifier::external_body]
fn json_from_value(v: serde_json::Value) -> Json {
    match v {
        serde_json::Value::Null => Json::Null,
        serde_json::Value::Bool(b) => Json::Bool(b),
        serde_json::Value::Number(n) => Json::Number(n),
        serde_json::Value::String(s) => Json::Str(s),
        serde_json::Value::Array(a) => Json::Array(a.into_iter().map(json_from_value).collect()),
        serde_json::Value::Object(m) => Json::Object(
            m.into_iter().map(|(k, x)| (k, json_from_value(x))).collect(),
        ),
    }
}

/// Relies on serde_json's `Value` enum, whose variants are built one for one.
#[verifier::external_body]
fn json_to_value(j: &Json) -> serde_json::Value {
    match j {
        Json::Null => serde_json::Value::Null,
        Json::Bool(b) => serde_json::Value::Bool(*b),
        Json::Number(n) => serde_json::Value::Number(n.clone()),
        Json::Str(s) => serde_json::Value::String(s.clone()),
        Json::Array(a) => serde_json::Value::Array(a.iter().map(json_to_value).collect()),
        Json::Object(m) => serde_json::Value::Object(
            m.iter().map(|(k, x)| (k.clone(), json_to_value(x))).collect(),
        ),
    }
}

/// Relies on `serde_json::from_str::<Value>`: it reads a JSON text into a
/// document whose objects have distinct member names, and fails on anything
/// that is not JSON.
#[verifier::external_body]
pub(crate) fn parse_json(text: &str) -> (r: Result<Json, serde_json::Error>)
    ensures
        r is Ok <==> parsed_json(text@) is Some,
        r matches Ok(j) ==> json_wf(j) && parsed_json(text@) == Some(j@),
{
    serde_json::from_str::<serde_json::Value>(text).map(json_from_value)
}

/// Relies on `serde_json::to_string` on a `Value`: the JSON text of the
/// document. Writing a `Value` (string keys only) into a `Vec` cannot fail.
#[verifier::external_body]
pub(crate) fn encode_json(j: &Json) -> (r: Result<String, serde_json::Error>)
    requires
        json_wf(*j),
    ensures
        r is Ok,
        r matches Ok(s) ==> s@ == json_text(j@),
{
    serde_json::to_string(&json_to_value(j))
}

/// Merge-patch of a stored JSON text by a patch JSON text: reads both,
/// applies the patch, and writes the result back as JSON text. Either text
/// not being JSON is an error.
pub fn patch_document(stored: &str, patch: &str) -> (r: Result<String, serde_json::Error>)
    ensures
        r is Ok <==> (parsed_json(stored@) is Some && parsed_json(patch@) is Some),
        r matches Ok(t) ==> t@ == json_text(
            merge_patch(parsed_json(stored@)->Some_0, parsed_json(patch@)->Some_0),
        ),
{
    let mut doc = match parse_json(stored) {
        Ok(d) => d,
        Err(e) => {
            return Err(e);
        },
    };
    let changes = match parse_json(patch) {
        Ok(p) => p,
        Err(e) => {
            return Err(e);
        },
    };
    deep_merge(&mut doc, changes);
    encode_json(&doc)
}

} // verus!
