//! Environments, variables, memory (expanded folders and open tabs) and
//! cookies of a workspace.

use vstd::prelude::*;
use crate::models::{Cookie, Environment, EnvironmentsConfig, ReplaceResult, Variable, active_env_index};
use crate::script_vars::{VarStore, map_of};
use crate::variables::{var_refs, subst_upto, defines, strictly_sorted, variable_refs, substitute, undefined_names};
use crate::text::{char_vec_views, string_views, all_ws, is_blank, to_string_of, concat3, chars_of, dec_chars, dec_digits, append_chars, string_of, str_eq};
use crate::ids::{generate_id, is_id_with_prefix};

verus! {

/// The enabled variables as name/value pairs, in their order.
pub open spec fn enabled_pairs(vars: Seq<Variable>) -> Seq<(Seq<char>, Seq<char>)>
    decreases vars.len(),
{
    if vars.len() == 0 {
        Seq::empty()
    } else if vars.last().enabled {
        enabled_pairs(vars.drop_last()).push((vars.last().key@, vars.last().value@))
    } else {
        enabled_pairs(vars.drop_last())
    }
}

/// The enabled variables of the active environment as a map, a later
/// variable of a name winning over an earlier one; empty when no
/// environment is active.
pub open spec fn active_variables(c: EnvironmentsConfig) -> Map<Seq<char>, Seq<char>> {
    match active_env_index(c) {
        Some(k) => map_of(enabled_pairs(c.environments@[k].variables@)),
        None => Map::empty(),
    }
}

/// Index of the first entry that is blank or repeats an earlier entry.
pub open spec fn first_bad_from(s: Seq<String>, i: int) -> Option<int>
    decreases s.len() - i,
{
    if i < 0 || i >= s.len() {
        None
    } else if all_ws(s[i]@) || exists|j: int| 0 <= j < i && #[trigger] s[j]@ == s[i]@ {
        Some(i)
    } else {
        first_bad_from(s, i + 1)
    }
}

/// Checks a list of ids: none blank, none repeated. The first offending
/// entry is reported: `blank_msg`, or `dup_prefix`, the id, `dup_suffix`.
fn validate_unique_ids(ids: &[String], blank_msg: &str, dup_prefix: &str, dup_suffix: &str) -> (r: Result<(), String>)
    ensures
        match first_bad_from(ids@, 0) {
            None => r is Ok,
            Some(i) => r is Err && (if all_ws(ids@[i]@) {
                r->Err_0@ == blank_msg@
            } else {
                r->Err_0@ == dup_prefix@ + ids@[i]@ + dup_suffix@
            }),
        },
{
    let mut i: usize = 0;
    while i < ids.len()
        invariant
            0 <= i <= ids@.len(),
            first_bad_from(ids@, 0) == first_bad_from(ids@, i as int),
        decreases ids@.len() - i,
    {
        if is_blank(ids[i].as_str()) {
            return Err(to_string_of(blank_msg));
        }
        let mut j: usize = 0;
        while j < i
            invariant
                0 <= j <= i < ids@.len(),
                first_bad_from(ids@, 0) == first_bad_from(ids@, i as int),
                !all_ws(ids@[i as int]@),
                forall|k: int| 0 <= k < j ==> ids@[k]@ != ids@[i as int]@,
            decreases i - j,
        {
            if str_eq(ids[j].as_str(), ids[i].as_str()) {
                assert(ids@[j as int]@ == ids@[i as int]@);
                return Err(concat3(dup_prefix, ids[i].as_str(), dup_suffix));
            }
            j = j + 1;
        }
        i = i + 1;
    }
    Ok(())
}

/// Rules and factories for environments, memory and cookies.
pub struct WorkspaceDataDomainService;

impl WorkspaceDataDomainService {
    /// A variable name must not be blank nor hold a space.
    pub fn validate_variable_key(key: &str) -> (r: Result<(), String>)
        ensures
            all_ws(key@) ==> r is Err && r->Err_0@ == "变量名不能为空"@,
            !all_ws(key@) && key@.contains(' ') ==> r is Err && r->Err_0@ == "变量名不能包含空格"@,
            r is Ok <==> (!all_ws(key@) && !key@.contains(' ')),
    {
        if is_blank(key) {
            return Err(to_string_of("变量名不能为空"));
        }
        let v = chars_of(key);
        for i in 0..v.len()
            invariant
                v@ == key@,
                !all_ws(key@),
                forall|j: int| 0 <= j < i ==> v@[j] != ' ',
        {
            if v[i] == ' ' {
                return Err(to_string_of("变量名不能包含空格"));
            }
        }
        Ok(())
    }

    /// A fresh environment id (`env_...`).
    pub fn generate_environment_id() -> (r: String)
        ensures
            is_id_with_prefix(r@, "env"@),
    {
        generate_id("env")
    }

    /// A new environment with no variables.
    pub fn create_environment_entity(name: String) -> (e: Environment)
        ensures
            is_id_with_prefix(e.id@, "env"@),
            e.name == name,
            e.variables@.len() == 0,
            e.common_headers is None,
    {
        Environment { id: Self::generate_environment_id(), name, variables: Vec::new(), common_headers: None }
    }

    /// Expanded folder ids: none blank, none repeated.
    pub fn validate_expanded_ids(ids: &[String]) -> (r: Result<(), String>)
        ensures
            match first_bad_from(ids@, 0) {
                None => r is Ok,
                Some(i) => r is Err && (if all_ws(ids@[i]@) {
                    r->Err_0@ == "展开集合ID不能为空"@
                } else {
                    r->Err_0@ == "展开集合ID '"@ + ids@[i]@ + "' 重复"@
                }),
            },
    {
        validate_unique_ids(ids, "展开集合ID不能为空", "展开集合ID '", "' 重复")
    }

    /// Open tab ids: none blank, none repeated.
    pub fn validate_open_tabs(tabs: &[String]) -> (r: Result<(), String>)
        ensures
            match first_bad_from(tabs@, 0) {
                None => r is Ok,
                Some(i) => r is Err && (if all_ws(tabs@[i]@) {
                    r->Err_0@ == "标签页ID不能为空"@
                } else {
                    r->Err_0@ == "标签页ID '"@ + tabs@[i]@ + "' 重复"@
                }),
            },
    {
        validate_unique_ids(tabs, "标签页ID不能为空", "标签页ID '", "' 重复")
    }

    /// The active tab index must fall inside the tab list (any index is
    /// accepted when there are no tabs).
    pub fn validate_active_tab_index(tabs_len: usize, active_index: usize) -> (r: Result<(), String>)
        ensures
            r is Err <==> (tabs_len > 0 && active_index >= tabs_len),
            r is Err ==> r->Err_0@ == "激活标签页索引 "@ + dec_digits(active_index as nat) + " 超出范围 (共 "@
                + dec_digits(tabs_len as nat) + " 个标签页)"@,
    {
        if tabs_len > 0 && active_index >= tabs_len {
            let mut v = chars_of("激活标签页索引 ");
            append_chars(&mut v, &dec_chars(active_index as u64));
            append_chars(&mut v, &chars_of(" 超出范围 (共 "));
            append_chars(&mut v, &dec_chars(tabs_len as u64));
            append_chars(&mut v, &chars_of(" 个标签页)"));
            return Err(string_of(&v));
        }
        Ok(())
    }

    /// A cookie needs a name, a domain and a value, none blank (checked in that order).
    pub fn validate_cookie(cookie: &Cookie) -> (r: Result<(), String>)
        ensures
            all_ws(cookie.name@) ==> r is Err && r->Err_0@ == "Cookie 名称不能为空"@,
            !all_ws(cookie.name@) && all_ws(cookie.domain@) ==> r is Err && r->Err_0@ == "Cookie domain 不能为空"@,
            !all_ws(cookie.name@) && !all_ws(cookie.domain@) && all_ws(cookie.value@) ==> r is Err
                && r->Err_0@ == "Cookie value 不能为空"@,
            r is Ok <==> (!all_ws(cookie.name@) && !all_ws(cookie.domain@) && !all_ws(cookie.value@)),
    {
        if is_blank(cookie.name.as_str()) {
            return Err(to_string_of("Cookie 名称不能为空"));
        }
        if is_blank(cookie.domain.as_str()) {
            return Err(to_string_of("Cookie domain 不能为空"));
        }
        if is_blank(cookie.value.as_str()) {
            return Err(to_string_of("Cookie value 不能为空"));
        }
        Ok(())
    }
}

impl WorkspaceDataDomainService {
    /// The enabled variables of the active environment, by name.
    pub fn get_active_variables_map(config: &EnvironmentsConfig) -> (r: VarStore)
        ensures
            r@ == active_variables(*config),
    {
        let mut r = VarStore::new();
        match config.get_active_environment() {
            None => r,
            Some(env) => {
                let vars = &env.variables;
                for i in 0..vars.len()
                    invariant
                        r@ == map_of(enabled_pairs(vars@.take(i as int))),
                {
                    let ghost before = enabled_pairs(vars@.take(i as int));
                    assert(vars@.take(i + 1).drop_last() =~= vars@.take(i as int));
                    if vars[i].enabled {
                        r.set(vars[i].key.clone(), vars[i].value.clone());
                        assert(before.push((vars@[i as int].key@, vars@[i as int].value@)).drop_last() =~= before);
                    }
                }
                assert(vars@.take(vars@.len() as int) =~= vars@);
                r
            },
        }
    }

    /// Replaces each `{{key}}` by its value, variable after variable in the
    /// order of `variables`, and lists the names referenced as `{{ name }}`
    /// (trimmed) that no variable defines, ascending and without repeats.
    pub fn replace_variables(text: &str, variables: &Vec<(String, String)>) -> (r: ReplaceResult)
        ensures
            r.text@ == subst_upto(text@, variables@, variables@.len() as int),
            strictly_sorted(string_views(r.undefined_variables@)),
            forall|m: Seq<char>| #[trigger] string_views(r.undefined_variables@).contains(m)
                <==> (var_refs(text@).contains(m) && !defines(variables@, m)),
    {
        let chars = chars_of(text);
        let refs = variable_refs(&chars);
        let names = undefined_names(&refs, variables);
        let mut undefined: Vec<String> = Vec::new();
        for k in 0..names.len()
            invariant
                string_views(undefined@) == char_vec_views(names@).take(k as int),
        {
            let s = string_of(&names[k]);
            let ghost before = string_views(undefined@);
            assert(char_vec_views(names@)[k as int] == names@[k as int]@);
            undefined.push(s);
            assert(string_views(undefined@) =~= before.push(s@));
            assert(string_views(undefined@) =~= char_vec_views(names@).take(k + 1));
        }
        assert(char_vec_views(names@).take(names@.len() as int) =~= char_vec_views(names@));
        let out = substitute(&chars, variables);
        ReplaceResult { text: string_of(&out), undefined_variables: undefined }
    }
}

} // verus!
