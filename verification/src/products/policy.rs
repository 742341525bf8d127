//! Validation policies per product family (strategy), and the factory that picks
//! one from a product type.
use crate::products::model::CreateProductRequest;
use crate::text::{ascii_lower, ascii_lower_eq, blank, is_blank, trim, trimmed};
use vstd::prelude::*;

verus! {

/// Why a product request fails its policy.
#[derive(Clone, Copy, PartialEq, Eq, Structural, Debug)]
pub enum PolicyError {
    NameEmpty,
    TypeEmpty,
    PriceNegative,
    QuantityNegative,
    UnitRequired,
}

impl PolicyError {
    /// The message the service answers with (always a 400).
    #[verifier::allow_in_spec]
    pub fn message(&self) -> &'static str
        returns
            (match self {
                PolicyError::NameEmpty => "Name cannot be empty",
                PolicyError::TypeEmpty => "Product type cannot be empty",
                PolicyError::PriceNegative => "Price cannot be negative",
                PolicyError::QuantityNegative => "Quantity cannot be negative",
                PolicyError::UnitRequired => "Food products require a unit of measure",
            }),
    {
        match self {
            PolicyError::NameEmpty => "Name cannot be empty",
            PolicyError::TypeEmpty => "Product type cannot be empty",
            PolicyError::PriceNegative => "Price cannot be negative",
            PolicyError::QuantityNegative => "Quantity cannot be negative",
            PolicyError::UnitRequired => "Food products require a unit of measure",
        }
    }
}

/// The checks every product family applies, in order.
pub open spec fn required_fields_outcome(request: &CreateProductRequest) -> Result<(), PolicyError> {
    if is_blank(request.name@) {
        Err(PolicyError::NameEmpty)
    } else if is_blank(request.product_type@) {
        Err(PolicyError::TypeEmpty)
    } else if request.price.negative {
        Err(PolicyError::PriceNegative)
    } else if request.quantity.negative {
        Err(PolicyError::QuantityNegative)
    } else {
        Ok(())
    }
}

/// A validation policy for a family of products.
pub trait ProductPolicy {
    spec fn outcome(&self, request: &CreateProductRequest) -> Result<(), PolicyError>;

    fn validate(&self, request: &CreateProductRequest) -> (r: Result<(), PolicyError>)
        ensures
            r == self.outcome(request),
    ;
}

/// Food products must also name a unit of measure.
pub struct FoodProductPolicy;

/// Any other product.
pub struct GenericProductPolicy;

/// Checks name, type, price and quantity.
pub fn required_fields(request: &CreateProductRequest) -> (r: Result<(), PolicyError>)
    ensures
        r == required_fields_outcome(request),
{
    if blank(request.name.as_str()) {
        return Err(PolicyError::NameEmpty);
    }
    if blank(request.product_type.as_str()) {
        return Err(PolicyError::TypeEmpty);
    }
    if request.price.negative {
        return Err(PolicyError::PriceNegative);
    }
    if request.quantity.negative {
        return Err(PolicyError::QuantityNegative);
    }
    Ok(())
}

impl ProductPolicy for FoodProductPolicy {
    open spec fn outcome(&self, request: &CreateProductRequest) -> Result<(), PolicyError> {
        match required_fields_outcome(request) {
            Err(e) => Err(e),
            Ok(()) => if is_blank(request.unit@) {
                Err(PolicyError::UnitRequired)
            } else {
                Ok(())
            },
        }
    }

    fn validate(&self, request: &CreateProductRequest) -> (r: Result<(), PolicyError>) {
        match required_fields(request) {
            Err(e) => Err(e),
            Ok(()) => if blank(request.unit.as_str()) {
                Err(PolicyError::UnitRequired)
            } else {
                Ok(())
            },
        }
    }
}

impl ProductPolicy for GenericProductPolicy {
    open spec fn outcome(&self, request: &CreateProductRequest) -> Result<(), PolicyError> {
        required_fields_outcome(request)
    }

    fn validate(&self, request: &CreateProductRequest) -> (r: Result<(), PolicyError>) {
        required_fields(request)
    }
}

/// The policy a product type selects.
pub enum SelectedPolicy {
    Food(FoodProductPolicy),
    Generic(GenericProductPolicy),
}

impl ProductPolicy for SelectedPolicy {
    open spec fn outcome(&self, request: &CreateProductRequest) -> Result<(), PolicyError> {
        match self {
            SelectedPolicy::Food(p) => p.outcome(request),
            SelectedPolicy::Generic(p) => p.outcome(request),
        }
    }

    fn validate(&self, request: &CreateProductRequest) -> (r: Result<(), PolicyError>) {
        match self {
            SelectedPolicy::Food(p) => p.validate(request),
            SelectedPolicy::Generic(p) => p.validate(request),
        }
    }
}

/// Product types, trimmed and in ASCII lower case, that are food.
pub open spec fn is_food_type(product_type: Seq<char>) -> bool {
    let k = ascii_lower(trimmed(product_type));
    ||| k == "food"@
    ||| k == "meat"@
    ||| k == "dairy"@
    ||| k == "honey"@
    ||| k == "juice"@
    ||| k == "preserve"@
}

/// Picks the validation policy for a product type.
pub struct ProductPolicyFactory;

impl ProductPolicyFactory {
    /// The food policy for food types, the generic policy for every other type.
    pub fn for_type(product_type: &str) -> (r: SelectedPolicy)
        ensures
            r is Food <==> is_food_type(product_type@),
    {
        let t = trim(product_type);
        if ascii_lower_eq(t, "food") || ascii_lower_eq(t, "meat") || ascii_lower_eq(t, "dairy")
            || ascii_lower_eq(t, "honey") || ascii_lower_eq(t, "juice") || ascii_lower_eq(
            t,
            "preserve",
        ) {
            SelectedPolicy::Food(FoodProductPolicy)
        } else {
            SelectedPolicy::Generic(GenericProductPolicy)
        }
    }
}

} // verus!
