//! Document elements: attribute and property management.
//!
//! The generic attribute mapping is the source of truth; the class list, the
//! `id` attribute, the inline style string and the `data-*` sub-mapping are
//! derived caches rewritten on every mutation of the relevant key, so the two
//! representations never diverge.

use vstd::prelude::*;
use vstd::string::StrSliceExecFns;

use crate::assoc::{sget, shas, skeys_unique, smap_of, sremove, sset};
use crate::strings::{
    join_sep, join_space, spec_starts_with, split_whitespace_vec, split_ws, str_eq,
    str_starts_with,
};
use crate::types::ElementId;

verus! {

/// An element: the attribute-bearing record attached to an element node.
pub struct Element {
    /// Unique identifier of this element.
    pub id: ElementId,
    /// Tag name.
    pub tag_name: String,
    /// Generic attribute mapping, keys unique.
    pub attributes: Vec<(String, String)>,
    /// Generic property mapping, keys unique.
    pub properties: Vec<(String, serde_json::Value)>,
    /// Derived cache: the classes of the `class` attribute.
    pub classes: Vec<String>,
    /// Derived cache: the `id` attribute.
    pub element_id: Option<String>,
    /// Derived cache: the `style` attribute.
    pub style: Option<String>,
    /// Derived cache: the `data-*` attributes, keyed without their prefix.
    pub dataset: Vec<(String, String)>,
}

/// Whether a class list holds `c`, compared by characters.
pub open spec fn has_class_in(classes: Seq<String>, c: Seq<char>) -> bool {
    exists|i: int| 0 <= i < classes.len() && classes[i]@ == c
}

/// The attribute map of `e`, by view.
pub open spec fn attrs_of(e: Element) -> Map<Seq<char>, String> {
    smap_of(e.attributes@)
}

/// The dataset map of `e`, by view.
pub open spec fn dataset_of(e: Element) -> Map<Seq<char>, String> {
    smap_of(e.dataset@)
}

impl Element {
    /// The element's own invariant: the three mappings have unique keys.
    pub open spec fn wf(&self) -> bool {
        skeys_unique(self.attributes@) && skeys_unique(self.properties@) && skeys_unique(
            self.dataset@,
        )
    }

    /// Field-for-field agreement, with the vector fields compared by view.
    pub open spec fn equiv(self, other: Element) -> bool {
        &&& self.id == other.id
        &&& self.tag_name@ == other.tag_name@
        &&& self.attributes@ == other.attributes@
        &&& self.properties@ == other.properties@
        &&& self.classes.deep_view() == other.classes.deep_view()
        &&& self.element_id == other.element_id
        &&& self.style == other.style
        &&& self.dataset@ == other.dataset@
    }

    /// Creates an element with no attributes.
    pub fn new(id: ElementId, tag_name: String) -> (r: Element)
        ensures
            r.id == id,
            r.tag_name@ == tag_name@,
            r.attributes@.len() == 0,
            r.properties@.len() == 0,
            r.classes@.len() == 0,
            r.element_id is None,
            r.style is None,
            r.dataset@.len() == 0,
            r.wf(),
    {
        Element {
            id,
            tag_name,
            attributes: Vec::new(),
            properties: Vec::new(),
            classes: Vec::new(),
            element_id: None,
            style: None,
            dataset: Vec::new(),
        }
    }

    /// The tag name.
    pub fn tag_name(&self) -> (r: &str)
        ensures
            r@ == self.tag_name@,
    {
        self.tag_name.as_str()
    }

    /// Replaces the tag name.
    pub fn set_tag_name(&mut self, tag_name: String)
        ensures
            *final(self) == (Element { tag_name, ..*old(self) }),
    {
        self.tag_name = tag_name;
    }

    /// The value of attribute `name`, if set.
    pub fn get_attribute(&self, name: &str) -> (r: Option<&str>)
        requires
            self.wf(),
        ensures
            match r {
                Some(v) => attrs_of(*self).contains_key(name@) && v@ == attrs_of(*self)[name@]@,
                None => !attrs_of(*self).contains_key(name@),
            },
    {
        match sget(&self.attributes, name) {
            Some(v) => Some(v.as_str()),
            None => None,
        }
    }

    /// Sets attribute `name` to `value`; the derived cache for `id`, `class`,
    /// `style` or a `data-*` key is rewritten alongside.
    pub fn set_attribute(&mut self, name: String, value: String)
        requires
            old(self).wf(),
        ensures
            final(self).wf(),
            attrs_of(*final(self)) == attrs_of(*old(self)).insert(name@, value),
            final(self).id == old(self).id,
            final(self).tag_name@ == old(self).tag_name@,
            final(self).properties@ == old(self).properties@,
            name@ == "id"@ ==> final(self).element_id == Some(value),
            name@ != "id"@ ==> final(self).element_id == old(self).element_id,
            name@ == "class"@ ==> final(self).classes.deep_view() == split_ws(value@),
            name@ != "class"@ ==> final(self).classes@ == old(self).classes@,
            name@ == "style"@ ==> final(self).style == Some(value),
            name@ != "style"@ ==> final(self).style == old(self).style,
            (name@ != "id"@ && name@ != "class"@ && name@ != "style"@ && spec_starts_with(
                name@,
                "data-"@,
            )) ==> dataset_of(*final(self)) == dataset_of(*old(self)).insert(
                name@.skip(5),
                value,
            ),
            !(name@ != "id"@ && name@ != "class"@ && name@ != "style"@ && spec_starts_with(
                name@,
                "data-"@,
            )) ==> final(self).dataset@ == old(self).dataset@,
    {
        proof {
            reveal_strlit("id");
            reveal_strlit("class");
            reveal_strlit("style");
            reveal_strlit("data-");
            assert("class"@[0] == 'c' && "style"@[0] == 's');
            assert("class"@ != "style"@);
        }
        if str_eq(name.as_str(), "id") {
            self.element_id = Some(value.clone());
        } else if str_eq(name.as_str(), "class") {
            self.classes = split_whitespace_vec(value.as_str());
        } else if str_eq(name.as_str(), "style") {
            self.style = Some(value.clone());
        } else if str_starts_with(name.as_str(), "data-") {
            proof {
                reveal_strlit("data-");
            }
            let key = name.as_str().substring_char(5, name.as_str().unicode_len()).to_owned();
            proof {
                assert(key@ =~= name@.skip(5));
            }
            sset(&mut self.dataset, key, value.clone());
        }
        sset(&mut self.attributes, name, value);
    }

    /// Removes attribute `name` and its derived cache; returns the removed
    /// value.
    pub fn remove_attribute(&mut self, name: &str) -> (r: Option<String>)
        requires
            old(self).wf(),
        ensures
            final(self).wf(),
            attrs_of(*final(self)) == attrs_of(*old(self)).remove(name@),
            r is Some <==> attrs_of(*old(self)).contains_key(name@),
            r is Some ==> r->0 == attrs_of(*old(self))[name@],
            final(self).id == old(self).id,
            final(self).tag_name@ == old(self).tag_name@,
            final(self).properties@ == old(self).properties@,
            name@ == "id"@ ==> final(self).element_id is None,
            name@ != "id"@ ==> final(self).element_id == old(self).element_id,
            name@ == "class"@ ==> final(self).classes@.len() == 0,
            name@ != "class"@ ==> final(self).classes@ == old(self).classes@,
            name@ == "style"@ ==> final(self).style is None,
            name@ != "style"@ ==> final(self).style == old(self).style,
            (name@ != "id"@ && name@ != "class"@ && name@ != "style"@ && spec_starts_with(
                name@,
                "data-"@,
            )) ==> dataset_of(*final(self)) == dataset_of(*old(self)).remove(name@.skip(5)),
            !(name@ != "id"@ && name@ != "class"@ && name@ != "style"@ && spec_starts_with(
                name@,
                "data-"@,
            )) ==> final(self).dataset@ == old(self).dataset@,
    {
        proof {
            reveal_strlit("id");
            reveal_strlit("class");
            reveal_strlit("style");
            reveal_strlit("data-");
            assert("class"@[0] == 'c' && "style"@[0] == 's');
            assert("class"@ != "style"@);
        }
        if str_eq(name, "id") {
            self.element_id = None;
        } else if str_eq(name, "class") {
            self.classes = Vec::new();
        } else if str_eq(name, "style") {
            self.style = None;
        } else if str_starts_with(name, "data-") {
            proof {
                reveal_strlit("data-");
            }
            let key = name.substring_char(5, name.unicode_len());
            proof {
                assert(key@ =~= name@.skip(5));
            }
            let _ = sremove(&mut self.dataset, key);
        }
        sremove(&mut self.attributes, name)
    }

    /// Whether attribute `name` is set.
    pub fn has_attribute(&self, name: &str) -> (r: bool)
        requires
            self.wf(),
        ensures
            r == attrs_of(*self).contains_key(name@),
    {
        shas(&self.attributes, name)
    }

    /// All attribute names, in insertion order.
    pub fn get_attribute_names(&self) -> (r: Vec<String>)
        ensures
            r@.len() == self.attributes@.len(),
            forall|i: int| 0 <= i < r@.len() ==> r@[i]@ == self.attributes@[i].0@,
    {
        let mut out: Vec<String> = Vec::new();
        let n = self.attributes.len();
        let mut i: usize = 0;
        while i < n
            invariant
                n == self.attributes@.len(),
                i <= n,
                out@.len() == i,
                forall|k: int| 0 <= k < i ==> out@[k]@ == self.attributes@[k].0@,
            decreases n - i,
        {
            out.push(self.attributes[i].0.clone());
            i = i + 1;
        }
        out
    }

    /// The whole attribute mapping.
    pub fn get_attributes(&self) -> (r: &Vec<(String, String)>)
        ensures
            r@ == self.attributes@,
    {
        &self.attributes
    }

    /// The property stored under `name`, if any.
    pub fn get_property(&self, name: &str) -> (r: Option<&serde_json::Value>)
        requires
            self.wf(),
        ensures
            match r {
                Some(v) => smap_of(self.properties@).contains_key(name@) && *v == smap_of(
                    self.properties@,
                )[name@],
                None => !smap_of(self.properties@).contains_key(name@),
            },
    {
        sget(&self.properties, name)
    }

    /// Stores `value` under property `name`, replacing any previous value.
    pub fn set_property(&mut self, name: String, value: serde_json::Value)
        requires
            old(self).wf(),
        ensures
            final(self).wf(),
            smap_of(final(self).properties@) == smap_of(old(self).properties@).insert(name@, value),
            *final(self) == (Element { properties: final(self).properties, ..*old(self) }),
    {
        sset(&mut self.properties, name, value);
    }

    /// Removes and returns the property stored under `name`.
    pub fn remove_property(&mut self, name: &str) -> (r: Option<serde_json::Value>)
        requires
            old(self).wf(),
        ensures
            final(self).wf(),
            smap_of(final(self).properties@) == smap_of(old(self).properties@).remove(name@),
            r is Some <==> smap_of(old(self).properties@).contains_key(name@),
            r is Some ==> r->0 == smap_of(old(self).properties@)[name@],
            *final(self) == (Element { properties: final(self).properties, ..*old(self) }),
    {
        sremove(&mut self.properties, name)
    }

    /// Whether property `name` is set.
    pub fn has_property(&self, name: &str) -> (r: bool)
        requires
            self.wf(),
        ensures
            r == smap_of(self.properties@).contains_key(name@),
    {
        shas(&self.properties, name)
    }

    /// All property names, in insertion order.
    pub fn get_property_names(&self) -> (r: Vec<String>)
        ensures
            r@.len() == self.properties@.len(),
            forall|i: int| 0 <= i < r@.len() ==> r@[i]@ == self.properties@[i].0@,
    {
        let mut out: Vec<String> = Vec::new();
        let n = self.properties.len();
        let mut i: usize = 0;
        while i < n
            invariant
                n == self.properties@.len(),
                i <= n,
                out@.len() == i,
                forall|k: int| 0 <= k < i ==> out@[k]@ == self.properties@[k].0@,
            decreases n - i,
        {
            out.push(self.properties[i].0.clone());
            i = i + 1;
        }
        out
    }

    /// The whole property mapping.
    pub fn get_properties(&self) -> (r: &Vec<(String, serde_json::Value)>)
        ensures
            r@ == self.properties@,
    {
        &self.properties
    }

    /// The `id` attribute, if set.
    pub fn get_id(&self) -> (r: Option<&str>)
        ensures
            match r {
                Some(v) => self.element_id is Some && v@ == self.element_id->0@,
                None => self.element_id is None,
            },
    {
        match &self.element_id {
            Some(v) => Some(v.as_str()),
            None => None,
        }
    }

    /// Sets or removes the `id` attribute, keeping the attribute mapping in
    /// sync.
    pub fn set_id(&mut self, id: Option<String>)
        requires
            old(self).wf(),
        ensures
            final(self).wf(),
            final(self).element_id == id,
            id is Some ==> attrs_of(*final(self)) == attrs_of(*old(self)).insert("id"@, id->0),
            id is None ==> attrs_of(*final(self)) == attrs_of(*old(self)).remove("id"@),
            final(self).id == old(self).id,
            final(self).tag_name@ == old(self).tag_name@,
            final(self).properties@ == old(self).properties@,
            final(self).classes@ == old(self).classes@,
            final(self).style == old(self).style,
            final(self).dataset@ == old(self).dataset@,
    {
        match id {
            Some(id_value) => {
                self.element_id = Some(id_value.clone());
                sset(&mut self.attributes, "id".to_owned(), id_value);
            },
            None => {
                self.element_id = None;
                let _ = sremove(&mut self.attributes, "id");
            },
        }
    }

    /// The class list.
    pub fn get_classes(&self) -> (r: &[String])
        ensures
            r@ == self.classes@,
    {
        self.classes.as_slice()
    }

    /// Adds `class` to the class list (unless already present) and rewrites
    /// the `class` attribute as the space-joined list.
    pub fn add_class(&mut self, class: String)
        requires
            old(self).wf(),
        ensures
            final(self).wf(),
            has_class_in(old(self).classes@, class@) ==> *final(self) == *old(self),
            !has_class_in(old(self).classes@, class@) ==> {
                &&& final(self).classes.deep_view() == old(self).classes.deep_view().push(class@)
                &&& attrs_of(*final(self)).contains_key("class"@)
                &&& attrs_of(*final(self))["class"@]@ == join_sep(
                    final(self).classes.deep_view(),
                    " "@,
                )
                &&& attrs_of(*final(self)).remove("class"@) == attrs_of(*old(self)).remove(
                    "class"@,
                )
            },
            final(self).id == old(self).id,
            final(self).tag_name@ == old(self).tag_name@,
            final(self).properties@ == old(self).properties@,
            final(self).element_id == old(self).element_id,
            final(self).style == old(self).style,
            final(self).dataset@ == old(self).dataset@,
    {
        if !self.has_class(class.as_str()) {
            self.classes.push(class);
            proof {
                assert(self.classes.deep_view() =~= old(self).classes.deep_view().push(
                    self.classes@.last()@,
                ));
            }
            self.update_class_attribute();
        }
    }

    /// Removes `class` from the class list; rewrites the `class` attribute,
    /// removing it entirely when the list becomes empty. Returns whether the
    /// class was present.
    pub fn remove_class(&mut self, class: &str) -> (r: bool)
        requires
            old(self).wf(),
        ensures
            final(self).wf(),
            r == has_class_in(old(self).classes@, class@),
            !r ==> *final(self) == *old(self),
            r ==> exists|i: int|
                {
                    &&& 0 <= i < old(self).classes@.len()
                    &&& old(self).classes@[i]@ == class@
                    &&& (forall|j: int| 0 <= j < i ==> old(self).classes@[j]@ != class@)
                    &&& final(self).classes.deep_view() == old(self).classes.deep_view().remove(i)
                },
            r && final(self).classes@.len() > 0 ==> attrs_of(*final(self)).contains_key(
                "class"@,
            ) && attrs_of(*final(self))["class"@]@ == join_sep(
                final(self).classes.deep_view(),
                " "@,
            ) && attrs_of(*final(self)).remove("class"@) == attrs_of(*old(self)).remove(
                "class"@,
            ),
            r && final(self).classes@.len() == 0 ==> attrs_of(*final(self)) == attrs_of(
                *old(self),
            ).remove("class"@),
            final(self).id == old(self).id,
            final(self).tag_name@ == old(self).tag_name@,
            final(self).properties@ == old(self).properties@,
            final(self).element_id == old(self).element_id,
            final(self).style == old(self).style,
            final(self).dataset@ == old(self).dataset@,
    {
        let found = find_class_index(&self.classes, class);
        match found {
            Some(i) => {
                proof {
                    assert(old(self).classes@[i as int]@ == class@);
                }
                self.classes.remove(i);
                proof {
                    let ghost wi = i as int;
                    assert(self.classes.deep_view() =~= old(self).classes.deep_view().remove(wi));
                    assert({
                        &&& 0 <= wi < old(self).classes@.len()
                        &&& old(self).classes@[wi]@ == class@
                        &&& (forall|j: int| 0 <= j < wi ==> old(self).classes@[j]@ != class@)
                        &&& self.classes.deep_view() == old(self).classes.deep_view().remove(wi)
                    });
                }
                self.update_class_attribute();
                true
            },
            None => false,
        }
    }

    /// Whether the class list holds `class`.
    pub fn has_class(&self, class: &str) -> (r: bool)
        ensures
            r == has_class_in(self.classes@, class@),
    {
        let n = self.classes.len();
        let mut i: usize = 0;
        while i < n
            invariant
                n == self.classes@.len(),
                i <= n,
                forall|j: int| 0 <= j < i ==> self.classes@[j]@ != class@,
            decreases n - i,
        {
            if str_eq(self.classes[i].as_str(), class) {
                proof {
                    assert(self.classes@[i as int]@ == class@);
                }
                return true;
            }
            i = i + 1;
        }
        false
    }

    /// Adds `class` when absent (returning true), removes its first
    /// occurrence when present (returning false); either way the `class`
    /// attribute is regenerated as the space-joined list, or removed entirely
    /// when the list becomes empty.
    pub fn toggle_class(&mut self, class: String) -> (r: bool)
        requires
            old(self).wf(),
        ensures
            final(self).wf(),
            r == !has_class_in(old(self).classes@, class@),
            r ==> final(self).classes.deep_view() == old(self).classes.deep_view().push(class@),
            !r ==> exists|i: int|
                {
                    &&& 0 <= i < old(self).classes@.len()
                    &&& old(self).classes@[i]@ == class@
                    &&& (forall|j: int| 0 <= j < i ==> old(self).classes@[j]@ != class@)
                    &&& final(self).classes.deep_view() == old(self).classes.deep_view().remove(i)
                },
            final(self).classes@.len() > 0 ==> attrs_of(*final(self)).contains_key("class"@)
                && attrs_of(*final(self))["class"@]@ == join_sep(
                final(self).classes.deep_view(),
                " "@,
            ) && attrs_of(*final(self)).remove("class"@) == attrs_of(*old(self)).remove("class"@),
            final(self).classes@.len() == 0 ==> attrs_of(*final(self)) == attrs_of(
                *old(self),
            ).remove("class"@),
            final(self).id == old(self).id,
            final(self).tag_name@ == old(self).tag_name@,
            final(self).properties@ == old(self).properties@,
            final(self).element_id == old(self).element_id,
            final(self).style == old(self).style,
            final(self).dataset@ == old(self).dataset@,
    {
        if self.has_class(class.as_str()) {
            self.remove_class(class.as_str());
            false
        } else {
            self.add_class(class);
            true
        }
    }

    /// The inline style string, if set.
    pub fn get_style(&self) -> (r: Option<&str>)
        ensures
            match r {
                Some(v) => self.style is Some && v@ == self.style->0@,
                None => self.style is None,
            },
    {
        match &self.style {
            Some(v) => Some(v.as_str()),
            None => None,
        }
    }

    /// Sets or removes the `style` attribute, keeping the attribute mapping
    /// in sync.
    pub fn set_style(&mut self, style: Option<String>)
        requires
            old(self).wf(),
        ensures
            final(self).wf(),
            final(self).style == style,
            style is Some ==> attrs_of(*final(self)) == attrs_of(*old(self)).insert(
                "style"@,
                style->0,
            ),
            style is None ==> attrs_of(*final(self)) == attrs_of(*old(self)).remove("style"@),
            final(self).id == old(self).id,
            final(self).tag_name@ == old(self).tag_name@,
            final(self).properties@ == old(self).properties@,
            final(self).classes@ == old(self).classes@,
            final(self).element_id == old(self).element_id,
            final(self).dataset@ == old(self).dataset@,
    {
        match style {
            Some(style_value) => {
                self.style = Some(style_value.clone());
                sset(&mut self.attributes, "style".to_owned(), style_value);
            },
            None => {
                self.style = None;
                let _ = sremove(&mut self.attributes, "style");
            },
        }
    }

    /// The dataset value under `key` (without its `data-` prefix), if set.
    pub fn get_dataset(&self, key: &str) -> (r: Option<&str>)
        requires
            self.wf(),
        ensures
            match r {
                Some(v) => dataset_of(*self).contains_key(key@) && v@ == dataset_of(*self)[key@]@,
                None => !dataset_of(*self).contains_key(key@),
            },
    {
        match sget(&self.dataset, key) {
            Some(v) => Some(v.as_str()),
            None => None,
        }
    }

    /// Stores `value` under dataset `key` and under the `data-`-prefixed
    /// attribute.
    pub fn set_dataset(&mut self, key: String, value: String)
        requires
            old(self).wf(),
        ensures
            final(self).wf(),
            dataset_of(*final(self)) == dataset_of(*old(self)).insert(key@, value),
            attrs_of(*final(self)).contains_key("data-"@ + key@),
            attrs_of(*final(self))["data-"@ + key@] == value,
            attrs_of(*final(self)).remove("data-"@ + key@) == attrs_of(*old(self)).remove(
                "data-"@ + key@,
            ),
            final(self).id == old(self).id,
            final(self).tag_name@ == old(self).tag_name@,
            final(self).properties@ == old(self).properties@,
            final(self).classes@ == old(self).classes@,
            final(self).element_id == old(self).element_id,
            final(self).style == old(self).style,
    {
        sset(&mut self.dataset, key.clone(), value.clone());
        let mut attr_name = "data-".to_owned();
        attr_name.append(key.as_str());
        proof {
            assert(attr_name@ == "data-"@ + key@);
        }
        sset(&mut self.attributes, attr_name, value);
    }

    /// Removes the dataset value under `key` and its `data-`-prefixed
    /// attribute; returns the removed value.
    pub fn remove_dataset(&mut self, key: &str) -> (r: Option<String>)
        requires
            old(self).wf(),
        ensures
            final(self).wf(),
            dataset_of(*final(self)) == dataset_of(*old(self)).remove(key@),
            attrs_of(*final(self)) == attrs_of(*old(self)).remove("data-"@ + key@),
            r is Some <==> dataset_of(*old(self)).contains_key(key@),
            r is Some ==> r->0 == dataset_of(*old(self))[key@],
            final(self).id == old(self).id,
            final(self).tag_name@ == old(self).tag_name@,
            final(self).properties@ == old(self).properties@,
            final(self).classes@ == old(self).classes@,
            final(self).element_id == old(self).element_id,
            final(self).style == old(self).style,
    {
        let value = sremove(&mut self.dataset, key);
        let mut attr_name = "data-".to_owned();
        attr_name.append(key);
        proof {
            assert(attr_name@ == "data-"@ + key@);
        }
        let _ = sremove(&mut self.attributes, attr_name.as_str());
        value
    }

    /// Whether the tag is one of the void (self-closing) HTML elements.
    pub fn is_void_element(&self) -> (r: bool)
        ensures
            r == is_void_tag(self.tag_name@),
    {
        let t = self.tag_name.as_str();
        str_eq(t, "area") || str_eq(t, "base") || str_eq(t, "br") || str_eq(t, "col") || str_eq(
            t,
            "embed",
        ) || str_eq(t, "hr") || str_eq(t, "img") || str_eq(t, "input") || str_eq(t, "link")
            || str_eq(t, "meta") || str_eq(t, "param") || str_eq(t, "source") || str_eq(t, "track")
            || str_eq(t, "wbr")
    }

    /// Whether the tag is one of the block-level HTML elements.
    pub fn is_block_element(&self) -> (r: bool)
        ensures
            r == is_block_tag(self.tag_name@),
    {
        let t = self.tag_name.as_str();
        str_eq(t, "address") || str_eq(t, "article") || str_eq(t, "aside") || str_eq(
            t,
            "blockquote",
        ) || str_eq(t, "canvas") || str_eq(t, "dd") || str_eq(t, "div") || str_eq(t, "dl")
            || str_eq(t, "dt") || str_eq(t, "fieldset") || str_eq(t, "figcaption") || str_eq(
            t,
            "figure",
        ) || str_eq(t, "footer") || str_eq(t, "form") || str_eq(t, "h1") || str_eq(t, "h2")
            || str_eq(t, "h3") || str_eq(t, "h4") || str_eq(t, "h5") || str_eq(t, "h6") || str_eq(
            t,
            "header",
        ) || str_eq(t, "hr") || str_eq(t, "li") || str_eq(t, "main") || str_eq(t, "nav") || str_eq(
            t,
            "noscript",
        ) || str_eq(t, "ol") || str_eq(t, "p") || str_eq(t, "pre") || str_eq(t, "section")
            || str_eq(t, "table") || str_eq(t, "tfoot") || str_eq(t, "ul") || str_eq(t, "video")
    }

    /// Whether the tag is inline: neither block-level nor void. The three
    /// classifications are mutually exhaustive by construction.
    pub fn is_inline_element(&self) -> (r: bool)
        ensures
            r == (!is_block_tag(self.tag_name@) && !is_void_tag(self.tag_name@)),
    {
        !self.is_block_element() && !self.is_void_element()
    }

    /// Rewrites the `class` attribute from the class list: space-joined, or
    /// removed entirely when the list is empty.
    fn update_class_attribute(&mut self)
        requires
            old(self).wf(),
        ensures
            final(self).wf(),
            old(self).classes@.len() == 0 ==> attrs_of(*final(self)) == attrs_of(
                *old(self),
            ).remove("class"@),
            old(self).classes@.len() > 0 ==> attrs_of(*final(self)).contains_key("class"@)
                && attrs_of(*final(self))["class"@]@ == join_sep(
                old(self).classes.deep_view(),
                " "@,
            ) && attrs_of(*final(self)).remove("class"@) == attrs_of(*old(self)).remove(
                "class"@,
            ),
            final(self).id == old(self).id,
            final(self).tag_name@ == old(self).tag_name@,
            final(self).properties@ == old(self).properties@,
            final(self).classes@ == old(self).classes@,
            final(self).element_id == old(self).element_id,
            final(self).style == old(self).style,
            final(self).dataset@ == old(self).dataset@,
    {
        if self.classes.is_empty() {
            let _ = sremove(&mut self.attributes, "class");
        } else {
            let class_value = join_space(&self.classes);
            sset(&mut self.attributes, "class".to_owned(), class_value);
        }
    }

    /// A copy of this element under a fresh identifier.
    pub fn clone_with_id(&self, new_id: ElementId) -> (r: Element)
        ensures
            r.id == new_id,
            r.equiv(Element { id: new_id, ..*self }),
            self.wf() ==> r.wf(),
    {
        Element {
            id: new_id,
            tag_name: self.tag_name.clone(),
            attributes: clone_string_pairs(&self.attributes),
            properties: crate::node::clone_data(&self.properties),
            classes: clone_strings(&self.classes),
            element_id: crate::node::clone_opt_string(&self.element_id),
            style: crate::node::clone_opt_string(&self.style),
            dataset: clone_string_pairs(&self.dataset),
        }
    }
}

impl Clone for Element {
    /// A field-for-field copy of the original.
    fn clone(&self) -> (r: Self)
        ensures
            r.equiv(*self),
            self.wf() ==> r.wf(),
    {
        self.clone_with_id(self.id)
    }
}

/// The void (self-closing) HTML tag names.
pub open spec fn is_void_tag(t: Seq<char>) -> bool {
    ||| t == "area"@
    ||| t == "base"@
    ||| t == "br"@
    ||| t == "col"@
    ||| t == "embed"@
    ||| t == "hr"@
    ||| t == "img"@
    ||| t == "input"@
    ||| t == "link"@
    ||| t == "meta"@
    ||| t == "param"@
    ||| t == "source"@
    ||| t == "track"@
    ||| t == "wbr"@
}

/// The block-level HTML tag names.
pub open spec fn is_block_tag(t: Seq<char>) -> bool {
    ||| t == "address"@
    ||| t == "article"@
    ||| t == "aside"@
    ||| t == "blockquote"@
    ||| t == "canvas"@
    ||| t == "dd"@
    ||| t == "div"@
    ||| t == "dl"@
    ||| t == "dt"@
    ||| t == "fieldset"@
    ||| t == "figcaption"@
    ||| t == "figure"@
    ||| t == "footer"@
    ||| t == "form"@
    ||| t == "h1"@
    ||| t == "h2"@
    ||| t == "h3"@
    ||| t == "h4"@
    ||| t == "h5"@
    ||| t == "h6"@
    ||| t == "header"@
    ||| t == "hr"@
    ||| t == "li"@
    ||| t == "main"@
    ||| t == "nav"@
    ||| t == "noscript"@
    ||| t == "ol"@
    ||| t == "p"@
    ||| t == "pre"@
    ||| t == "section"@
    ||| t == "table"@
    ||| t == "tfoot"@
    ||| t == "ul"@
    ||| t == "video"@
}

/// Position of the first class whose characters equal `class`.
fn find_class_index(classes: &Vec<String>, class: &str) -> (r: Option<usize>)
    ensures
        match r {
            Some(i) => i < classes@.len() && classes@[i as int]@ == class@ && forall|j: int|
                0 <= j < i ==> classes@[j]@ != class@,
            None => !has_class_in(classes@, class@),
        },
{
    let n = classes.len();
    let mut i: usize = 0;
    while i < n
        invariant
            n == classes@.len(),
            i <= n,
            forall|j: int| 0 <= j < i ==> classes@[j]@ != class@,
        decreases n - i,
    {
        if str_eq(classes[i].as_str(), class) {
            return Some(i);
        }
        i = i + 1;
    }
    None
}

/// Copies a vector of strings.
pub fn clone_strings(v: &Vec<String>) -> (r: Vec<String>)
    ensures
        r@ == v@,
{
    let mut out: Vec<String> = Vec::new();
    let n = v.len();
    let mut i: usize = 0;
    while i < n
        invariant
            n == v@.len(),
            i <= n,
            out@ == v@.subrange(0, i as int),
        decreases n - i,
    {
        out.push(v[i].clone());
        proof {
            assert(out@ =~= v@.subrange(0, i + 1));
        }
        i = i + 1;
    }
    proof {
        assert(v@.subrange(0, n as int) =~= v@);
    }
    out
}

/// Copies a vector of string pairs.
pub fn clone_string_pairs(v: &Vec<(String, String)>) -> (r: Vec<(String, String)>)
    ensures
        r@ == v@,
{
    let mut out: Vec<(String, String)> = Vec::new();
    let n = v.len();
    let mut i: usize = 0;
    while i < n
        invariant
            n == v@.len(),
            i <= n,
            out@ == v@.subrange(0, i as int),
        decreases n - i,
    {
        let key = v[i].0.clone();
        let value = v[i].1.clone();
        proof {
            assert((key, value) == v@[i as int]);
        }
        out.push((key, value));
        proof {
            assert(out@ =~= v@.subrange(0, i + 1));
        }
        i = i + 1;
    }
    proof {
        assert(v@.subrange(0, n as int) =~= v@);
    }
    out
}

} // verus!
