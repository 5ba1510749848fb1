//! Component kinds registered by name, instantiating them, and the check
//! that a scene entity names only registered kinds.
use vstd::prelude::*;

use crate::keyed::{by_name, find_name, lemma_keyed_len, names_of, upsert_name, values_of};
use crate::schedule::{check_component_name, is_blank, unknown_component_message};

verus! {

/// The first of the component types that is not registered, if any.
pub open spec fn spec_first_unregistered(registered: Set<Seq<char>>, types: Seq<Seq<char>>) -> Option<Seq<char>>
    decreases types.len(),
{
    if types.len() == 0 {
        None
    } else if !registered.contains(types[0]) {
        Some(types[0])
    } else {
        spec_first_unregistered(registered, types.drop_first())
    }
}

/// The name an entity is reported under: its own, or `<unnamed>`.
pub open spec fn reported_name(name: Option<Seq<char>>) -> Seq<char> {
    match name {
        Some(name) => name,
        None => "<unnamed>"@,
    }
}

/// What is said of an entity that uses a component type nobody registered.
pub open spec fn spec_unregistered_message(entity: Seq<char>, component_type: Seq<char>) -> Seq<char> {
    "unknown component type '"@ + component_type + "' while loading entity '"@ + entity
        + "'; register it with ctx.components().register::<T>(\""@ + component_type
        + "\") before ctx.load_main_scene()"@
}

/// Component registrations by name; registering a name again replaces the
/// registration it had.
pub struct ComponentRegistry<G> {
    registrations: Vec<(String, G)>,
}

impl<G> View for ComponentRegistry<G> {
    type V = Map<Seq<char>, G>;

    closed spec fn view(&self) -> Map<Seq<char>, G> {
        by_name(self.registrations@)
    }
}

impl<G> ComponentRegistry<G> {
    #[verifier::type_invariant]
    spec fn names_distinct(&self) -> bool {
        names_of(self.registrations@).no_duplicates()
    }

    /// No registrations.
    pub fn new() -> (registry: Self)
        ensures
            registry@ == Map::<Seq<char>, G>::empty(),
    {
        let registry = ComponentRegistry { registrations: Vec::new() };
        assert(registry@ =~= Map::<Seq<char>, G>::empty());
        registry
    }

    fn position(&self, name: &str) -> (found: Option<usize>)
        ensures
            match found {
                Some(i) => i < self.registrations@.len() && self.registrations@[i as int].0@ == name@
                    && names_of(self.registrations@).index_of(name@) == i,
                None => !names_of(self.registrations@).contains(name@),
            },
    {
        proof {
            use_type_invariant(self);
        }
        find_name(&self.registrations, name)
    }

    /// Registers a component kind under a name, replacing an earlier one of
    /// that name; a blank name is refused and nothing changes.
    pub fn register(&mut self, name: &str, registration: G) -> (result: Result<(), String>)
        ensures
            is_blank(name@) ==> (result matches Err(message) && message@
                == "component registration name must not be empty"@ && final(self)@ == old(self)@),
            !is_blank(name@) ==> (result is Ok && final(self)@ == old(self)@.insert(name@, registration)),
    {
        proof {
            use_type_invariant(&*self);
        }
        match check_component_name(name) {
            Ok(()) => {},
            Err(message) => return Err(message),
        }
        let mut registrations = Vec::new();
        std::mem::swap(&mut registrations, &mut self.registrations);
        upsert_name(&mut registrations, name, registration);
        self.registrations = registrations;
        Ok(())
    }

    /// Whether a component kind is registered under the name.
    pub fn contains(&self, name: &str) -> (found: bool)
        ensures
            found == self@.contains_key(name@),
    {
        match self.position(name) {
            Some(i) => {
                assert(names_of(self.registrations@)[i as int] == name@);
                true
            },
            None => false,
        }
    }

    /// The registration under the name, if any.
    pub fn registration(&self, name: &str) -> (found: Option<&G>)
        ensures
            match found {
                Some(registration) => self@.contains_key(name@) && *registration == self@[name@],
                None => !self@.contains_key(name@),
            },
    {
        match self.position(name) {
            Some(i) => {
                assert(names_of(self.registrations@)[i as int] == name@);
                Some(&self.registrations[i].1)
            },
            None => None,
        }
    }

    /// Makes a component of the registered kind with `make`; an unregistered
    /// kind is refused.
    pub fn instantiate<O, Make: Fn(&G) -> O>(&self, component_type: &str, make: Make) -> (result: Result<O, String>)
        requires
            forall|registration: &G| make.requires((registration,)),
        ensures
            !self@.contains_key(component_type@) ==> (result matches Err(message) && message@
                == "unknown component type '"@ + component_type@ + "'"@),
            self@.contains_key(component_type@) ==> (result matches Ok(component) && make.ensures(
                (&self@[component_type@],),
                component,
            )),
    {
        match self.registration(component_type) {
            Some(registration) => Ok(make(registration)),
            None => Err(unknown_component_message(component_type)),
        }
    }

    /// Checks that every component type an entity uses is registered: the
    /// first that is not is reported with the entity's name.
    pub fn validate_components(&self, entity_name: Option<&str>, component_types: &Vec<String>) -> (result: Result<(), String>)
        ensures
            match spec_first_unregistered(self@.dom(), component_types@.map_values(|t: String| t@)) {
                Some(missing) => result matches Err(message) && message@ == spec_unregistered_message(
                    reported_name(
                        match entity_name {
                            Some(name) => Some(name@),
                            None => None,
                        },
                    ),
                    missing,
                ),
                None => result is Ok,
            },
    {
        let ghost types = component_types@.map_values(|t: String| t@);
        let mut i: usize = 0;
        assert(types.skip(0) =~= types);
        while i < component_types.len()
            invariant
                i <= component_types@.len(),
                types == component_types@.map_values(|t: String| t@),
                spec_first_unregistered(self@.dom(), types) == spec_first_unregistered(
                    self@.dom(),
                    types.skip(i as int),
                ),
            decreases component_types@.len() - i,
        {
            let ghost rest = types.skip(i as int);
            assert(rest[0] == component_types@[i as int]@);
            assert(rest.drop_first() =~= types.skip(i + 1));
            if !self.contains(component_types[i].as_str()) {
                let name = match entity_name {
                    Some(name) => name,
                    None => "<unnamed>",
                };
                let component_type = component_types[i].as_str();
                let mut message = "unknown component type '".to_owned();
                message.append(component_type);
                message.append("' while loading entity '");
                message.append(name);
                message.append("'; register it with ctx.components().register::<T>(\"");
                message.append(component_type);
                message.append("\") before ctx.load_main_scene()");
                proof {
                    reveal_strlit("<unnamed>");
                }
                return Err(message);
            }
            i = i + 1;
        }
        assert(types.skip(i as int) =~= Seq::<Seq<char>>::empty());
        Ok(())
    }

    /// How many component kinds are registered.
    pub fn len(&self) -> (count: usize)
        ensures
            count == self@.len(),
    {
        proof {
            use_type_invariant(self);
            lemma_keyed_len(names_of(self.registrations@), values_of(self.registrations@));
        }
        self.registrations.len()
    }
}

} // verus!
