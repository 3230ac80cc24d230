use vstd::prelude::*;

verus! {

/// A variant of a product, with its price if it has one.
#[derive(Debug, PartialEq)]
pub struct ProductOption {
    pub name: String,
    pub price: Option<serde_json::Number>,
}

/// A product of a plan's catalog.
#[derive(Debug, PartialEq)]
pub struct ProductItem {
    pub name: String,
    pub price: Option<serde_json::Number>,
    pub options: Vec<ProductOption>,
}

/// A product catalog as supplied.
#[derive(Debug, PartialEq)]
pub struct ProductsCreate {
    pub items: Vec<ProductItem>,
    pub description: String,
}

/// A stored product catalog.
#[derive(Debug, PartialEq)]
pub struct ProductsRead {
    pub items: Vec<ProductItem>,
    pub description: String,
}

impl From<ProductsCreate> for ProductsRead {
    fn from(p: ProductsCreate) -> (r: ProductsRead) {
        ProductsRead { items: p.items, description: p.description }
    }
}

impl vstd::std_specs::convert::FromSpecImpl<ProductsCreate> for ProductsRead {
    open spec fn obeys_from_spec() -> bool {
        true
    }

    open spec fn from_spec(p: ProductsCreate) -> ProductsRead {
        ProductsRead { items: p.items, description: p.description }
    }
}

} // verus!
