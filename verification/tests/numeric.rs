use booleanop::helper::less_if;
use float_next_after::NextAfter as NextAfterFloat;
use std::cmp::Ordering;

/// Directed rounding in the floating-point widths the unverified glue
/// accepts: the next representable value strictly above or below.
trait NextAfter {
    fn nextafter(self, up: bool) -> Self;
}

impl NextAfter for f64 {
    fn nextafter(self, up: bool) -> Self {
        if up {
            self.next_after(f64::INFINITY)
        } else {
            self.next_after(f64::NEG_INFINITY)
        }
    }
}

impl NextAfter for f32 {
    fn nextafter(self, up: bool) -> Self {
        if up {
            self.next_after(f32::INFINITY)
        } else {
            self.next_after(f32::NEG_INFINITY)
        }
    }
}

fn dummy<T>(x: T) -> T
where
    T: NextAfter,
{
    x.nextafter(true)
}

#[test]
fn test_float_type_trait() {
    assert_eq!(dummy(0_f64), 0_f64.next_after(f64::INFINITY));
    assert_eq!(dummy(0_f32), 0_f32.next_after(f32::INFINITY));
}

#[test]
fn nextafter_composes_with_ordering_helpers() {
    let up = 1.0_f64.nextafter(true);
    let down = 1.0_f64.nextafter(false);
    assert!(down < 1.0 && 1.0 < up);
    assert_eq!(less_if(down < up), Ordering::Less);
}
