pub mod conv;
pub mod dispatch;
pub mod dot;
pub mod int_unary;
pub mod matmul_int;
pub mod packing;
pub mod strided_copy;
