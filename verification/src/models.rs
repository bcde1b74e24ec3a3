//! Domain records of the workbench: requests, collections, workspaces,
//! orchestrations, scripts, chats and cookies.

use vstd::prelude::*;

verus! {

/// A request or response header.
#[derive(Debug)]
pub struct Header {
    pub key: String,
    pub value: String,
    pub enabled: bool,
    pub description: Option<String>,
}

impl Clone for Header {
    fn clone(&self) -> (res: Self)
        ensures
            res == *self,
    {
        Header {
            key: self.key.clone(),
            value: self.value.clone(),
            enabled: self.enabled,
            description: self.description.clone(),
        }
    }
}

/// A query parameter.
#[derive(Debug)]
pub struct Param {
    pub key: String,
    pub value: String,
    pub enabled: bool,
    pub description: Option<String>,
}

impl Clone for Param {
    fn clone(&self) -> (res: Self)
        ensures
            res == *self,
    {
        Param {
            key: self.key.clone(),
            value: self.value.clone(),
            enabled: self.enabled,
            description: self.description.clone(),
        }
    }
}

/// A file attached to a form field.
#[derive(Debug)]
pub struct FileInfo {
    pub path: String,
    pub name: String,
}

impl Clone for FileInfo {
    fn clone(&self) -> (res: Self)
        ensures
            res == *self,
    {
        FileInfo { path: self.path.clone(), name: self.name.clone() }
    }
}

/// A `form-data` / `x-www-form-urlencoded` field.
#[derive(Debug)]
pub struct FormField {
    pub key: String,
    pub value: String,
    pub field_type: String,
    pub enabled: bool,
    pub files: Option<Vec<FileInfo>>,
}

pub open spec fn opt_view<T>(v: Option<Vec<T>>) -> Option<Seq<T>> {
    match v {
        Some(x) => Some(x@),
        None => None,
    }
}

/// Clones a vector of records whose clone is an exact copy.
pub fn clone_vec<T: Clone>(v: &Vec<T>) -> (res: Vec<T>)
    requires
        forall|x: T, y: T| #[trigger] call_ensures(T::clone, (&x,), y) ==> y == x,
    ensures
        res@ == v@,
{
    let res = v.clone();
    assert forall|i: int| 0 <= i < v.len() implies res@[i] == v@[i] by {
        assert(cloned::<T>(v[i], res[i]));
    }
    assert(res@ =~= v@);
    res
}

pub fn clone_opt_vec<T: Clone>(v: &Option<Vec<T>>) -> (res: Option<Vec<T>>)
    requires
        forall|x: T, y: T| #[trigger] call_ensures(T::clone, (&x,), y) ==> y == x,
    ensures
        opt_view(res) == opt_view(*v),
{
    match v {
        Some(x) => Some(clone_vec(x)),
        None => None,
    }
}

/// The abstract content of a form field.
pub struct FormFieldView {
    pub key: String,
    pub value: String,
    pub field_type: String,
    pub enabled: bool,
    pub files: Option<Seq<FileInfo>>,
}

impl View for FormField {
    type V = FormFieldView;

    open spec fn view(&self) -> FormFieldView {
        FormFieldView {
            key: self.key,
            value: self.value,
            field_type: self.field_type,
            enabled: self.enabled,
            files: opt_view(self.files),
        }
    }
}

impl Clone for FormField {
    fn clone(&self) -> (res: Self)
        ensures
            res@ == self@,
    {
        FormField {
            key: self.key.clone(),
            value: self.value.clone(),
            field_type: self.field_type.clone(),
            enabled: self.enabled,
            files: clone_opt_vec(&self.files),
        }
    }
}

/// A collection or request variable.
#[derive(Debug)]
pub struct Variable {
    pub key: String,
    pub value: String,
    pub enabled: bool,
}

impl Clone for Variable {
    fn clone(&self) -> (res: Self)
        ensures
            res == *self,
    {
        Variable { key: self.key.clone(), value: self.value.clone(), enabled: self.enabled }
    }
}

/// Index entry of a saved response.
#[derive(Debug)]
pub struct SavedResponseIndexEntry {
    pub id: String,
    pub name: String,
    pub created_at: String,
    pub api_id: Option<String>,
}

impl Clone for SavedResponseIndexEntry {
    fn clone(&self) -> (res: Self)
        ensures
            res == *self,
    {
        SavedResponseIndexEntry {
            id: self.id.clone(),
            name: self.name.clone(),
            created_at: self.created_at.clone(),
            api_id: self.api_id.clone(),
        }
    }
}

/// A saved response snapshot.
#[derive(Debug)]
pub struct SavedResponse {
    pub id: String,
    pub name: String,
    pub created_at: String,
    pub api_id: Option<String>,
    pub doc_content: String,
}

pub open spec fn form_views(s: Seq<FormField>) -> Seq<FormFieldView> {
    s.map_values(|f: FormField| f@)
}

pub open spec fn opt_form_views(v: Option<Vec<FormField>>) -> Option<Seq<FormFieldView>> {
    match v {
        Some(x) => Some(form_views(x@)),
        None => None,
    }
}

pub fn clone_form_fields(v: &Option<Vec<FormField>>) -> (res: Option<Vec<FormField>>)
    ensures
        opt_form_views(res) == opt_form_views(*v),
{
    match v {
        Some(x) => {
            let mut r: Vec<FormField> = Vec::new();
            for i in 0..x.len()
                invariant
                    r@.len() == i,
                    forall|j: int| 0 <= j < i ==> r@[j]@ == x@[j]@,
            {
                r.push(x[i].clone());
            }
            assert(form_views(r@) =~= form_views(x@));
            Some(r)
        },
        None => None,
    }
}

/// A node of the collection tree: a folder (`item_type == "collection"`)
/// or a request (`item_type == "api"`).
#[derive(Debug)]
pub struct Collection {
    pub id: String,
    pub name: String,
    pub description: Option<String>,
    pub item_type: String,
    pub children: Vec<Collection>,
    pub method: Option<String>,
    pub url: Option<String>,
    pub params: Option<Vec<Param>>,
    pub headers: Option<Vec<Header>>,
    pub body: Option<String>,
    pub body_type: Option<String>,
    pub form_fields: Option<Vec<FormField>>,
    pub saved_responses: Option<Vec<SavedResponseIndexEntry>>,
    pub common_headers: Option<Vec<Header>>,
    pub collection_variables: Option<Vec<Variable>>,
    pub ws_config: Option<String>,
}

/// The abstract content of a collection node, children included.
pub struct CollectionView {
    pub id: String,
    pub name: String,
    pub description: Option<String>,
    pub item_type: String,
    pub children: Seq<CollectionView>,
    pub method: Option<String>,
    pub url: Option<String>,
    pub params: Option<Seq<Param>>,
    pub headers: Option<Seq<Header>>,
    pub body: Option<String>,
    pub body_type: Option<String>,
    pub form_fields: Option<Seq<FormFieldView>>,
    pub saved_responses: Option<Seq<SavedResponseIndexEntry>>,
    pub common_headers: Option<Seq<Header>>,
    pub collection_variables: Option<Seq<Variable>>,
    pub ws_config: Option<String>,
}

pub open spec fn coll_view(c: Collection) -> CollectionView
    decreases c,
{
    CollectionView {
        id: c.id,
        name: c.name,
        description: c.description,
        item_type: c.item_type,
        children: coll_views(c.children@),
        method: c.method,
        url: c.url,
        params: opt_view(c.params),
        headers: opt_view(c.headers),
        body: c.body,
        body_type: c.body_type,
        form_fields: opt_form_views(c.form_fields),
        saved_responses: opt_view(c.saved_responses),
        common_headers: opt_view(c.common_headers),
        collection_variables: opt_view(c.collection_variables),
        ws_config: c.ws_config,
    }
}

pub open spec fn coll_views(s: Seq<Collection>) -> Seq<CollectionView>
    decreases s,
{
    if s.len() == 0 {
        Seq::empty()
    } else {
        coll_views(s.drop_last()).push(coll_view(s.last()))
    }
}

impl View for Collection {
    type V = CollectionView;

    open spec fn view(&self) -> CollectionView {
        coll_view(*self)
    }
}

pub broadcast proof fn lemma_coll_views(s: Seq<Collection>)
    ensures
        #[trigger] coll_views(s).len() == s.len(),
        forall|i: int| 0 <= i < s.len() ==> #[trigger] coll_views(s)[i] == coll_view(s[i]),
    decreases s.len(),
{
    if s.len() > 0 {
        lemma_coll_views(s.drop_last());
    }
}

pub broadcast proof fn lemma_coll_views_update(s: Seq<Collection>, i: int, c: Collection)
    requires
        0 <= i < s.len(),
    ensures
        #[trigger] coll_views(s.update(i, c)) == coll_views(s).update(i, coll_view(c)),
{
    lemma_coll_views(s);
    lemma_coll_views(s.update(i, c));
    assert(coll_views(s.update(i, c)) =~= coll_views(s).update(i, coll_view(c)));
}

pub broadcast proof fn lemma_coll_views_push(s: Seq<Collection>, c: Collection)
    ensures
        #[trigger] coll_views(s.push(c)) == coll_views(s).push(coll_view(c)),
{
    assert(s.push(c).drop_last() =~= s);
}

pub broadcast proof fn lemma_coll_views_insert0(s: Seq<Collection>, c: Collection)
    ensures
        #[trigger] coll_views(s.insert(0, c)) == seq![coll_view(c)] + coll_views(s),
{
    lemma_coll_views(s);
    lemma_coll_views(s.insert(0, c));
    assert(coll_views(s.insert(0, c)) =~= seq![coll_view(c)] + coll_views(s));
}

pub fn clone_children(v: &Vec<Collection>) -> (res: Vec<Collection>)
    ensures
        coll_views(res@) == coll_views(v@),
    decreases v@,
{
    let mut r: Vec<Collection> = Vec::new();
    for i in 0..v.len()
        invariant
            r@.len() == i,
            forall|j: int| 0 <= j < i ==> coll_view(#[trigger] r@[j]) == coll_view(v@[j]),
    {
        r.push(clone_collection(&v[i]));
    }
    proof {
        lemma_coll_views(r@);
        lemma_coll_views(v@);
    }
    assert(coll_views(r@) =~= coll_views(v@));
    r
}

/// A deep copy of a collection node and its subtree.
pub fn clone_collection(c: &Collection) -> (res: Collection)
    ensures
        res@ == c@,
    decreases c,
{
    Collection {
        id: c.id.clone(),
        name: c.name.clone(),
        description: c.description.clone(),
        item_type: c.item_type.clone(),
        children: clone_children(&c.children),
        method: c.method.clone(),
        url: c.url.clone(),
        params: clone_opt_vec(&c.params),
        headers: clone_opt_vec(&c.headers),
        body: c.body.clone(),
        body_type: c.body_type.clone(),
        form_fields: clone_form_fields(&c.form_fields),
        saved_responses: clone_opt_vec(&c.saved_responses),
        common_headers: clone_opt_vec(&c.common_headers),
        collection_variables: clone_opt_vec(&c.collection_variables),
        ws_config: c.ws_config.clone(),
    }
}

impl Clone for Collection {
    fn clone(&self) -> (res: Self)
        ensures
            res@ == self@,
    {
        clone_collection(self)
    }
}

/// A stored cookie.
#[derive(Debug)]
pub struct Cookie {
    pub name: String,
    pub value: String,
    pub domain: String,
    pub path: String,
    pub expires: Option<String>,
    pub max_age: Option<u64>,
    pub secure: bool,
    pub http_only: bool,
    pub created_at: String,
}

impl Clone for Cookie {
    fn clone(&self) -> (res: Self)
        ensures
            res == *self,
    {
        Cookie {
            name: self.name.clone(),
            value: self.value.clone(),
            domain: self.domain.clone(),
            path: self.path.clone(),
            expires: self.expires.clone(),
            max_age: self.max_age,
            secure: self.secure,
            http_only: self.http_only,
            created_at: self.created_at.clone(),
        }
    }
}

/// A named set of variables (an environment).
#[derive(Debug)]
pub struct Environment {
    pub id: String,
    pub name: String,
    pub variables: Vec<Variable>,
    pub common_headers: Option<Vec<Header>>,
}

/// The environments of a workspace and which of them is active.
#[derive(Debug)]
pub struct EnvironmentsConfig {
    pub environments: Vec<Environment>,
    pub active_environment_id: Option<String>,
}

/// Index of the first environment named by `id`, if any.
pub open spec fn env_index_from(envs: Seq<Environment>, id: Seq<char>, i: int) -> Option<int>
    decreases envs.len() - i,
{
    if i < 0 || i >= envs.len() {
        None
    } else if envs[i].id@ == id {
        Some(i)
    } else {
        env_index_from(envs, id, i + 1)
    }
}

/// The active environment: the first one whose id is the active id.
pub open spec fn active_env_index(c: EnvironmentsConfig) -> Option<int> {
    match c.active_environment_id {
        Some(id) => env_index_from(c.environments@, id@, 0),
        None => None,
    }
}

proof fn lemma_env_index_from(envs: Seq<Environment>, id: Seq<char>, i: int)
    requires
        0 <= i <= envs.len(),
        forall|j: int| 0 <= j < i ==> envs[j].id@ != id,
    ensures
        match env_index_from(envs, id, i) {
            Some(k) => 0 <= k < envs.len() && envs[k].id@ == id && forall|j: int| 0 <= j < k ==> envs[j].id@ != id,
            None => forall|j: int| 0 <= j < envs.len() ==> envs[j].id@ != id,
        },
    decreases envs.len() - i,
{
    if i < envs.len() && envs[i].id@ != id {
        lemma_env_index_from(envs, id, i + 1);
    }
}

impl EnvironmentsConfig {
    /// The active environment, if an id is set and some environment has it.
    pub fn get_active_environment(&self) -> (r: Option<&Environment>)
        ensures
            match active_env_index(*self) {
                Some(k) => r == Some(&self.environments@[k]),
                None => r is None,
            },
    {
        match &self.active_environment_id {
            None => None,
            Some(id) => {
                let mut i: usize = 0;
                while i < self.environments.len()
                    invariant
                        i <= self.environments@.len(),
                        self.active_environment_id == Some(*id),
                        forall|j: int| 0 <= j < i ==> self.environments@[j].id@ != id@,
                    decreases self.environments@.len() - i,
                {
                    if crate::text::str_eq(self.environments[i].id.as_str(), id.as_str()) {
                        proof {
                            lemma_env_index_from(self.environments@, id@, 0);
                            let k = env_index_from(self.environments@, id@, 0)->0;
                            if k < i {
                                assert(self.environments@[k].id@ != id@);
                            }
                            if k > i {
                                assert(self.environments@[i as int].id@ != id@);
                            }
                        }
                        return Some(&self.environments[i]);
                    }
                    i = i + 1;
                }
                proof {
                    lemma_env_index_from(self.environments@, id@, 0);
                }
                None
            },
        }
    }
}

/// The result of substituting `{{name}}` references.
#[derive(Debug)]
pub struct ReplaceResult {
    pub text: String,
    pub undefined_variables: Vec<String>,
}

} // verus!
