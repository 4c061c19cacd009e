//! The tree-sitter queries that read Java sources.
use vstd::prelude::*;

verus! {

/// Classes and records, their superclasses, fields and record components, and
/// the package.
pub const ENTITIES_QUERY: &'static str = r#"
(package_declaration (_) @package)
(class_declaration
	name: 
    	(identifier) @entity.name
    superclass: (_ (type_identifier) @entity.superclass)?
	body: 
    	(class_body 
    		(field_declaration
            	type: (_)
                declarator: 
                [
                	(_                 	
						name: (_)
                		value: (_)
                    ) 
                    (_
                    	name: (_)
                    )
                ]
            ) 
        ) @entity.body
)
(record_declaration
	name: (identifier) @entity.name
    parameters: (_ 
    	(formal_parameter
        	type: (_)
            name: (_)
        )
    ) @entity.recordparams
    body: (class_body 
    		(field_declaration
            	type: (_)
                declarator: 
                [
                	(_                 	
						name: (_)
                		value: (_)
                    ) 
                    (_
                    	name: (_)
                    )
                ]
            )
        ) @entity.body
) @record
"#;

/// Import declarations, with the `*` of an on-demand import.
pub const IMPORTS_QUERY: &'static str = r#"
(import_declaration
	(scoped_identifier) @import.scoped
    (asterisk)? @import.asterisk
)
"#;

/// Annotated methods, and the annotations of classes.
pub const ENDPOINTS_QUERY: &'static str = r#"
(method_declaration
	(modifiers [(annotation) (marker_annotation)]) @modifiers
    type: (_) @return_type
    name: (_) @callable_name
    parameters: (_) @callable_params
) @callable

(class_declaration
	(modifiers
		(annotation) @class_annotation
	)
)
"#;

/// Methods and constructors.
pub const CALLABLES_QUERY: &'static str = r#"
[
    (method_declaration
    type: (_)? @callable_type
    name: (_) @callable_name
    parameters: (_) @callable_params
    ) @type_method

    (constructor_declaration
    name: (_) @callable_name
    parameters: (_) @callable_params
    ) @type_constructor
] @callable
"#;

/// Object creations, explicit constructor calls and method invocations.
pub const CALL_STATEMENTS_QUERY: &'static str = r#"
[
    (object_creation_expression
        type: (_) @invoked_on
        arguments: (_) @args
    )
    (explicit_constructor_invocation
        constructor: (_) @explicit_constructor_call
        arguments: (_) @args
    )
    (method_invocation
        object: (_)? @invoked_on
        name: (_) @name
        arguments: (_) @args
    )
] @call
"#;

/// Local variable and field declarations, and assignments: the variable's
/// name, its declared type and the value given.
pub const ASSIGNMENTS_QUERY: &'static str = r#"
(local_variable_declaration
    type: (_) @type
    declarator: (variable_declarator
        name: (_) @name
        value: (_)? @value
    )
) @assignment
(field_declaration
    type: (_) @type
    declarator: (variable_declarator
        name: (_) @name
        value: (_)? @value
    )
) @assignment
(assignment_expression
    left: (identifier) @name
    right: (_) @value
) @assignment
"#;

/// Methods with their modifiers, return type, name and parameters: the
/// candidates for `@KafkaListener` and `@RabbitListener` methods.
pub const LISTENER_QUERY: &'static str = r#"
(method_declaration
  (modifiers) @modifiers
  type: (_)? @return_type
  name: (_) @method_name
  parameters: (_) @method_params
) @method
"#;

/// Classes with the interfaces they implement: the candidates for
/// `MessageHandler<Contract>` implementations.
pub const MESSAGE_HANDLER_QUERY: &'static str = r#"
(class_declaration
  name: (identifier) @class_name
  interfaces: (super_interfaces
    (type_list
      (_) @interface
    )
  )
) @class
"#;

} // verus!
