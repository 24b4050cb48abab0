use crate::def_database::Definition;
use crate::scalar::Scalar;
use vstd::prelude::*;

verus! {

/// A biome. It refers to no other record, so its raw and resolved forms are the same.
#[derive(Debug)]
pub struct BiomeDefinition {
    pub def_name: String,
    pub min_height: Option<Scalar>,
    pub max_height: Option<Scalar>,
    pub min_humidity: Option<Scalar>,
    pub max_humidity: Option<Scalar>,
    pub min_temperature: Option<Scalar>,
    pub max_temperature: Option<Scalar>,
}

impl Clone for BiomeDefinition {
    fn clone(&self) -> (r: Self)
        ensures
            r == *self,
    {
        BiomeDefinition {
            def_name: self.def_name.clone(),
            min_height: self.min_height,
            max_height: self.max_height,
            min_humidity: self.min_humidity,
            max_humidity: self.max_humidity,
            min_temperature: self.min_temperature,
            max_temperature: self.max_temperature,
        }
    }
}

impl Definition for BiomeDefinition {
    open spec fn def_name(&self) -> Seq<char> {
        self.def_name@
    }

    fn get_def_name(&self) -> (r: &str) {
        self.def_name.as_str()
    }
}

} // verus!
