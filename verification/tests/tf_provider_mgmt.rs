use infraweave::blocks::HclBlock;
use infraweave::provider_mgmt::TfProviderMgmt;
use infraweave::hcl_code::parse_terraform;
use infraweave::resolver::HclExpr;

fn blocks_of(text: &str) -> Vec<HclBlock> {
    parse_terraform(text).expect("test input is Terraform code")
}

fn same(actual: Vec<HclBlock>, expected: &str) {
    assert_eq!(format!("{:#?}", actual), format!("{:#?}", blocks_of(expected)));
}

fn collect(inputs: &[&str], add: fn(&mut TfProviderMgmt, &HclBlock)) -> TfProviderMgmt {
    let mut provider_mgr = TfProviderMgmt::new();
    for i in inputs {
        for b in blocks_of(i) {
            add(&mut provider_mgr, &b);
        }
    }
    provider_mgr
}

fn run_terraform(inputs: &[&str], expected: &str) {
    same(collect(inputs, TfProviderMgmt::add_terraform).terraform(), expected);
}

fn run_provider_configuration(inputs: &[&str], expected: &str) {
    same(collect(inputs, TfProviderMgmt::add_provider_configuration).provider_configuration(), expected);
}

fn run_variables(inputs: &[&str], expected: &str) {
    same(collect(inputs, TfProviderMgmt::add_variable).variables(), expected);
}

fn run_locals(inputs: &[&str], expected: &str) {
    same(collect(inputs, TfProviderMgmt::add_locals).locals(), expected);
}

fn run_output(inputs: &[&str], expected: &str) {
    same(collect(inputs, TfProviderMgmt::add_output).output(), expected);
}

fn run_data(inputs: &[&str], expected: &str) {
    same(collect(inputs, TfProviderMgmt::add_data).data(), expected);
}

fn run_add_and_build(inputs: &[&str], expected: &str) {
    same(collect(inputs, TfProviderMgmt::add_block).build(), expected);
}

#[test]
fn required_version() {
    run_terraform(
        &[
            r#"
                        terraform {
                            required_version = "~>1.0"
                        }
                    "#,
            r#"
                        terraform {
                            required_version = ">=1.5.0"
                        }
                    "#,
        ],
        r#"
                    terraform {
                        required_version = "~>1.0, >=1.5.0"
                    }
                "#,
    );
}

#[test]
fn provider_meta() {
    run_terraform(
        &[
            r#"
                        terraform {
                            provider_meta "my-provider" {
                                hello = "world"
                            }
                        }
                    "#,
        ],
        r#"
                    terraform {
                        provider_meta "my-provider" {
                            hello = "world"
                        }
                    }
                "#,
    );
}

#[test]
fn required_provider_single() {
    run_terraform(
        &[
            r#"
                        terraform {
                            required_providers {
                                aws = {
                                    version = ">= 2.1.0"
                                    source = "hashicorp/aws"
                                }
                            }
                        }
                    "#,
        ],
        r#"
                    terraform {
                        required_providers {
                            aws = {
                                version = ">= 2.1.0"
                                source = "hashicorp/aws"
                            }
                        }
                    }
                "#,
    );
}

#[test]
fn required_provider_version_constraint() {
    run_terraform(
        &[
            r#"
                        terraform {
                            required_providers {
                                aws = {
                                    version = ">= 2.1.0"
                                    source = "hashicorp/aws"
                                }
                            }
                        }
                    "#,
            r#"
                        terraform {
                            required_providers {
                                aws = {
                                    version = ">= 2.5.0"
                                    source = "hashicorp/aws"
                                }
                            }
                        }
                    "#,
        ],
        r#"
                    terraform {
                        required_providers {
                            aws = {
                            version = ">= 2.1.0, >= 2.5.0"
                            source = "hashicorp/aws"
                            }
                        }
                    }
                "#,
    );
}

#[test]
fn required_proivder_configured_aliases_add() {
    run_terraform(
        &[
            r#"
                        terraform {
                            required_providers {
                                aws = {
                                    version = ">= 2.1.0"
                                    source = "hashicorp/aws"
                                }
                            }
                        }
                    "#,
            r#"
                        terraform {
                            required_providers {
                                aws = {
                                    version = ">= 2.5.0"
                                    source = "hashicorp/aws"
                                    configured_aliases = [aws.usw1]
                                }
                            }
                        }
                    "#,
        ],
        r#"
                    terraform {
                        required_providers {
                            aws = {
                                version = ">= 2.1.0, >= 2.5.0"
                                source = "hashicorp/aws"
                                configured_aliases = [aws.usw1]
                            }
                        }
                    }
                "#,
    );
}

#[test]
fn required_provider_configured_aliases_modify() {
    run_terraform(
        &[
            r#"
                        terraform {
                            required_providers {
                                aws = {
                                    version = ">= 2.1.0"
                                    source = "hashicorp/aws"
                                    configured_aliases = [aws.usw1]
                                }
                            }
                        }
                    "#,
            r#"
                        terraform {
                            required_providers {
                                aws = {
                                    version = ">= 2.5.0"
                                    source = "hashicorp/aws"
                                    configured_aliases = [aws.usw2]
                                }
                            }
                        }
                    "#,
        ],
        r#"
                    terraform {
                        required_providers {
                            aws = {
                                version = ">= 2.1.0, >= 2.5.0"
                                source = "hashicorp/aws"
                                configured_aliases = [aws.usw1, aws.usw2]
                            }
                        }
                    }
                "#,
    );
}

#[test]
fn tf_provider_mgmt_add_one() {
    run_provider_configuration(
        &[
            r#"
                        provider "aws" {
                            region     = "us-west-2"
                            access_key = "my-access-key"
                            secret_key = "my-secret-key"
                        }
                    "#,
        ],
        r#"
                    provider "aws" {
                        region     = "us-west-2"
                        access_key = "my-access-key"
                        secret_key = "my-secret-key"
                    }
                "#,
    );
}

#[test]
fn tf_provider_mgmt_add_two_in_same() {
    run_provider_configuration(
        &[
            r#"
                        provider "aws" {
                            region     = "us-west-2"
                            access_key = "my-access-key"
                            secret_key = "my-secret-key"
                        }

                        provider "helm" {
                            kubernetes = {
                                config_path = "~/.kube/config"
                            }

                            registries = [
                                {
                                url      = "oci://localhost:5000"
                                username = "username"
                                password = "password"
                                },
                                {
                                url      = "oci://private.registry"
                                username = "username"
                                password = "password"
                                }
                            ]
                        }
                    "#,
        ],
        r#"
                    provider "aws" {
                        region     = "us-west-2"
                        access_key = "my-access-key"
                        secret_key = "my-secret-key"
                    }

                    provider "helm" {
                        kubernetes = {
                            config_path = "~/.kube/config"
                        }

                        registries = [
                            {
                            url      = "oci://localhost:5000"
                            username = "username"
                            password = "password"
                            },
                            {
                            url      = "oci://private.registry"
                            username = "username"
                            password = "password"
                            }
                        ]
                    }
                "#,
    );
}

#[test]
fn add_two() {
    run_provider_configuration(
        &[
            r#"
                        provider "aws" {
                            region     = "us-west-2"
                            access_key = "my-access-key"
                            secret_key = "my-secret-key"
                        }
                    "#,
            r#"
                        provider "helm" {
                            kubernetes = {
                                config_path = "~/.kube/config"
                            }

                            registries = [
                                {
                                url      = "oci://localhost:5000"
                                username = "username"
                                password = "password"
                                },
                                {
                                url      = "oci://private.registry"
                                username = "username"
                                password = "password"
                                }
                            ]
                        }
                    "#,
        ],
        r#"
                    provider "aws" {
                        region     = "us-west-2"
                        access_key = "my-access-key"
                        secret_key = "my-secret-key"
                    }

                    provider "helm" {
                        kubernetes = {
                            config_path = "~/.kube/config"
                        }

                        registries = [
                            {
                            url      = "oci://localhost:5000"
                            username = "username"
                            password = "password"
                            },
                            {
                            url      = "oci://private.registry"
                            username = "username"
                            password = "password"
                            }
                        ]
                    }
                "#,
    );
}

#[test]
fn drop_duplicates_no_alias() {
    run_provider_configuration(
        &[
            r#"
                        provider "aws" {
                            region     = "us-west-2"
                            access_key = "my-access-key"
                            secret_key = "my-secret-key"
                        }
                    "#,
            r#"
                        provider "aws" {
                            region     = "us-west-1"
                            access_key = "my-access-key"
                            secret_key = "my-secret-key"
                        }
                    "#,
        ],
        r#"
                    provider "aws" {
                        region     = "us-west-2"
                        access_key = "my-access-key"
                        secret_key = "my-secret-key"
                    }
                "#,
    );
}

#[test]
fn drop_duplicates_same_alias() {
    run_provider_configuration(
        &[
            r#"
                        provider "aws" {
                            region     = "us-west-1"
                            access_key = "my-access-key"
                            secret_key = "my-secret-key"
                            alias = "usw1"
                        }
                    "#,
            r#"
                        provider "aws" {
                            region     = "us-west-1"
                            access_key = "my-access-key"
                            secret_key = "my-secret-key"
                            alias = "usw1"
                        }
                    "#,
        ],
        r#"
                    provider "aws" {
                        region     = "us-west-1"
                        access_key = "my-access-key"
                        secret_key = "my-secret-key"
                        alias = "usw1"
                    }
                "#,
    );
}

#[test]
fn accept_duplicate_with_different_alias() {
    run_provider_configuration(
        &[
            r#"
                        provider "aws" {
                            region     = "us-west-2"
                            access_key = "my-access-key"
                            secret_key = "my-secret-key"
                        }
                    "#,
            r#"
                        provider "aws" {
                            region     = "us-west-1"
                            access_key = "my-access-key"
                            secret_key = "my-secret-key"
                            alias = "usw1"
                        }
                    "#,
        ],
        r#"
                    provider "aws" {
                        region     = "us-west-2"
                        access_key = "my-access-key"
                        secret_key = "my-secret-key"
                    }

                    provider "aws" {
                        region     = "us-west-1"
                        access_key = "my-access-key"
                        secret_key = "my-secret-key"
                        alias = "usw1"
                    }
                "#,
    );
}

#[test]
fn tf_provider_mgmt_add_one_variables() {
    run_variables(
        &[
            r#"
                        variable "hello" {
                            type=string
                        }
                    "#,
        ],
        r#"
                    variable "hello" {
                        type=string
                    }
                "#,
    );
}

#[test]
fn tf_provider_mgmt_add_two_in_same_variables() {
    run_variables(
        &[
            r#"
                        variable "hello" {
                            type=string
                        }

                        variable "bye" {
                            type=bool
                        }
                    "#,
        ],
        r#"
                    variable "hello" {
                        type=string
                    }

                    variable "bye" {
                        type=bool
                    }
                "#,
    );
}

#[test]
fn two_inputs() {
    run_variables(
        &[
            r#"
                        variable "hello" {
                            type=string
                        }
                    "#,
            r#"
                        variable "bye" {
                            type=bool
                        }
                    "#,
        ],
        r#"
                    variable "hello" {
                        type=string
                    }
                    
                    variable "bye" {
                        type=bool
                    }
                "#,
    );
}

#[test]
fn only_variables() {
    run_variables(
        &[
            r#"
                        variable "hello" {
                            type=string
                        }
                    "#,
            r#"
                        provider "bye" {
                            type=bool
                        }
                    "#,
        ],
        r#"
                    variable "hello" {
                        type=string
                    }
                "#,
    );
}

#[test]
fn no_ducplicates() {
    run_variables(
        &[
            r#"
                        variable "hello" {
                            type=string
                        }
                    "#,
            r#"
                        variable "hello" {
                            type=string
                        }
                    "#,
        ],
        r#"
                    variable "hello" {
                        type=string
                    }
                "#,
    );
}

#[test]
fn tf_provider_mgmt_add_one_locals() {
    run_locals(
        &[
            r#"
                        locals {
                            kalle = "one"
                        }
                    "#,
        ],
        r#"
                    locals {
                        kalle = "one"
                    }
                "#,
    );
}

#[test]
fn add_two_from_same_input() {
    run_locals(
        &[
            r#"
                        locals {
                            kalle = "one"
                            olle = "two"
                        }
                    "#,
        ],
        r#"
                    locals {
                        kalle = "one"
                        olle = "two"
                    }
                "#,
    );
}

#[test]
fn add_two_from_different_input() {
    run_locals(
        &[
            r#"
                        locals {
                            kalle = "one"
                        }
                    "#,
            r#"
                        locals {
                            olle = "two"
                        }
                    "#,
        ],
        r#"
                    locals {
                        kalle = "one"
                        olle = "two"
                    }
                "#,
    );
}

#[test]
fn only_locals() {
    run_locals(
        &[
            r#"
                        locals {
                            kalle = "one"
                        }
                    "#,
            r#"
                        variable "test" {
                            type=string
                        }
                    "#,
        ],
        r#"
                    locals {
                        kalle = "one"
                    }
                "#,
    );
}

#[test]
fn tf_provider_mgmt_no_duplicates() {
    run_locals(
        &[
            r#"
                        locals {
                            kalle = "one"
                        }
                    "#,
            r#"
                        locals {
                            kalle = "two"
                        }
                    "#,
        ],
        r#"
                    locals {
                        kalle = "one"
                    }
                "#,
    );
}

#[test]
fn complex() {
    run_locals(
        &[
            r#"
                        locals {
                            kalle = "one"
                        }
                    "#,
            r#"
                        locals {
                            subnet_cidrs = [
                                for i in range(local.az_count) :
                                cidrsubnet(local.vpc_cidr, 8, i)
                            ]
                        }
                    "#,
        ],
        r#"
                    locals {
                        kalle = "one"
                        subnet_cidrs = [
                            for i in range(local.az_count) :
                            cidrsubnet(local.vpc_cidr, 8, i)
                        ]
                    }
                "#,
    );
}

#[test]
fn only_output() {
    run_output(
        &[
            r#"
                        output "instance_public_ip" {
                            value = aws_instance.web.public_ip
                            description = "Public IP address of the instance."

                            precondition {
                                condition     = length([for rule in aws_security_group.web.ingress : rule if rule.to_port == 80 || rule.to_port == 443]) > 0
                                error_message = "Security group must allow HTTP (port 80) or HTTPS (port 443) ingress traffic."
                            }
                        }

                        variable "session_token" {
                            type      = string
                            ephemeral = true
                        }
                    "#,
        ],
        r#"
                    output "instance_public_ip" {
                        value = aws_instance.web.public_ip
                        description = "Public IP address of the instance."

                        precondition {
                            condition     = length([for rule in aws_security_group.web.ingress : rule if rule.to_port == 80 || rule.to_port == 443]) > 0
                            error_message = "Security group must allow HTTP (port 80) or HTTPS (port 443) ingress traffic."
                        }
                    }
                "#,
    );
}

#[test]
fn tf_provider_mgmt_no_duplicates_output() {
    run_output(
        &[
            r#"
                        output "instance_public_ip" {
                            value = aws_instance.web.public_ip
                            description = "Public IP address of the instance."

                            precondition {
                                condition     = length([for rule in aws_security_group.web.ingress : rule if rule.to_port == 80 || rule.to_port == 443]) > 0
                                error_message = "Security group must allow HTTP (port 80) or HTTPS (port 443) ingress traffic."
                            }
                        }
                    "#,
            r#"
                        output "instance_public_ip" {
                            value = aws_instance.web.public_ip
                            description = "Public IP address of the instance."

                            precondition {
                                condition     = length([for rule in aws_security_group.web.ingress : rule if rule.to_port == 80 || rule.to_port == 443]) > 0
                                error_message = "Security group must allow HTTP (port 80) or HTTPS (port 443) ingress traffic."
                            }
                        }
                    "#,
        ],
        r#"
                    output "instance_public_ip" {
                        value = aws_instance.web.public_ip
                        description = "Public IP address of the instance."

                        precondition {
                            condition     = length([for rule in aws_security_group.web.ingress : rule if rule.to_port == 80 || rule.to_port == 443]) > 0
                            error_message = "Security group must allow HTTP (port 80) or HTTPS (port 443) ingress traffic."
                        }
                    }
                "#,
    );
}

#[test]
fn only_data() {
    run_data(
        &[
            r#"
                        data "aws_ami" "example_ami" {
                            most_recent = true
                            owners      = ["amazon"]
                            filter {
                                name   = "name"
                                values = ["amzn2-ami-hvm-*"]
                            }
                            filter {
                                name   = "architecture"
                                values = ["x86_64"]
                            }
                            depends_on = [aws_subnet.example_subnet]
                        }
                        variable "session_token" {
                            type      = string
                            ephemeral = true
                        }
                    "#,
        ],
        r#"
                    data "aws_ami" "example_ami" {
                        most_recent = true
                        owners      = ["amazon"]
                        filter {
                            name   = "name"
                            values = ["amzn2-ami-hvm-*"]
                        }
                        filter {
                            name   = "architecture"
                            values = ["x86_64"]
                        }
                        depends_on = [aws_subnet.example_subnet]
                    }
                "#,
    );
}

#[test]
fn tf_provider_mgmt_no_duplicates_data() {
    run_data(
        &[
            r#"
                        data "aws_ami" "example_ami" {
                            most_recent = true
                            owners      = ["amazon"]
                            filter {
                                name   = "name"
                                values = ["amzn2-ami-hvm-*"]
                            }
                            filter {
                                name   = "architecture"
                                values = ["x86_64"]
                            }
                            depends_on = [aws_subnet.example_subnet]
                        }
                    "#,
            r#"
                        data "aws_ami" "example_ami" {
                            most_recent = true
                            owners      = ["amazon"]
                            filter {
                                name   = "name"
                                values = ["amzn2-ami-hvm-*"]
                            }
                            filter {
                                name   = "architecture"
                                values = ["x86_64"]
                            }
                            depends_on = [aws_subnet.example_subnet]
                        }
                    "#,
        ],
        r#"
                    data "aws_ami" "example_ami" {
                        most_recent = true
                        owners      = ["amazon"]
                        filter {
                            name   = "name"
                            values = ["amzn2-ami-hvm-*"]
                        }
                        filter {
                            name   = "architecture"
                            values = ["x86_64"]
                        }
                        depends_on = [aws_subnet.example_subnet]
                    }
                "#,
    );
}

#[test]
fn all_blocks() {
    run_add_and_build(
        &[
            r#"
                        terraform {
                            required_version = "~>1.0"
                        }
                    "#,
            r#"
                        terraform {
                            required_providers {
                                aws = {
                                    version = ">= 2.5.0"
                                    source = "hashicorp/aws"
                                }
                            }
                        }
                    "#,
            r#"
                        data "aws_ami" "example_ami" {
                            most_recent = true
                            owners      = ["amazon"]
                            filter {
                                name   = "name"
                                values = ["amzn2-ami-hvm-*"]
                            }
                            filter {
                                name   = "architecture"
                                values = ["x86_64"]
                            }
                            depends_on = [aws_subnet.example_subnet]
                        }
                    "#,
            r#"
                        variable "session_token" {
                            type      = string
                            ephemeral = true
                        }
                    "#,
            r#"
                        output "instance_public_ip" {
                            value = aws_instance.web.public_ip
                            description = "Public IP address of the instance."

                            precondition {
                                condition     = length([for rule in aws_security_group.web.ingress : rule if rule.to_port == 80 || rule.to_port == 443]) > 0
                                error_message = "Security group must allow HTTP (port 80) or HTTPS (port 443) ingress traffic."
                            }
                        }
                    "#,
            r#"
                        locals {
                            kalle = "one"
                            subnet_cidrs = [
                                for i in range(local.az_count) :
                                cidrsubnet(local.vpc_cidr, 8, i)
                            ]
                        }
                    "#,
            r#"
                        provider "aws" {
                            region     = "us-west-2"
                            access_key = "my-access-key"
                            secret_key = "my-secret-key"
                        }
                    "#,
        ],
        r#"
                    terraform {
                        required_version = "~>1.0"
                        required_providers {
                                aws = {
                                    version = ">= 2.5.0"
                                    source = "hashicorp/aws"
                                }
                            }
                    }
                    provider "aws" {
                        region     = "us-west-2"
                        access_key = "my-access-key"
                        secret_key = "my-secret-key"
                    }
                    locals {
                        kalle = "one"
                        subnet_cidrs = [
                            for i in range(local.az_count) :
                            cidrsubnet(local.vpc_cidr, 8, i)
                        ]
                    }
                    variable "session_token" {
                        type      = string
                        ephemeral = true
                    }
                    data "aws_ami" "example_ami" {
                        most_recent = true
                        owners      = ["amazon"]
                        filter {
                            name   = "name"
                            values = ["amzn2-ami-hvm-*"]
                        }
                        filter {
                            name   = "architecture"
                            values = ["x86_64"]
                        }
                        depends_on = [aws_subnet.example_subnet]
                    }
                    output "instance_public_ip" {
                        value = aws_instance.web.public_ip
                        description = "Public IP address of the instance."

                        precondition {
                            condition     = length([for rule in aws_security_group.web.ingress : rule if rule.to_port == 80 || rule.to_port == 443]) > 0
                            error_message = "Security group must allow HTTP (port 80) or HTTPS (port 443) ingress traffic."
                        }
                    }
                "#,
    );
}

use infraweave::manifest::{DeploymentManifest, DeploymentMetadata, DeploymentSpec};
use infraweave::publishing::ProviderConfig;
use infraweave::resolver::TfInputResolver;
use infraweave::root_module::{can_be_variable, module_block, providers, variables};
use infraweave::value::Value;

fn claim_with(variables: Value) -> DeploymentManifest {
    DeploymentManifest {
        api_version: "infraweave.io/v1".to_string(),
        kind: "S3Bucket".to_string(),
        metadata: DeploymentMetadata { name: "bucket2".to_string(), namespace: None },
        spec: DeploymentSpec {
            module_version: Some("0.0.21".to_string()),
            stack_version: None,
            region: "N/A".to_string(),
            reference: None,
            variables,
            dependencies: None,
        },
    }
}

#[test]
fn module_call_of_a_claim() {
    let claim = claim_with(Value::Object(vec![
        ("bucketName".to_string(), Value::Text("{{ S3Bucket::bucket1a::bucketName }}-after".to_string())),
        ("tags".to_string(), Value::Object(vec![("Name".to_string(), Value::Text("plain".to_string()))])),
    ]));
    let resolver = TfInputResolver::new(vec![], vec!["bucket1a__bucket_name".to_string()]);
    let inputs = vec![
        ("bucket_name".to_string(), "bucket2__bucket_name".to_string()),
        ("tags".to_string(), "bucket2__tags".to_string()),
        ("input_list".to_string(), "bucket2__input_list".to_string()),
    ];
    let vars = variables(&inputs, &claim, &resolver);
    let provs = providers(&vec![
        ProviderConfig { name: "aws-5".to_string(), provider: "aws".to_string(), alias: None },
        ProviderConfig { name: "aws-5-usw1".to_string(), provider: "aws".to_string(), alias: Some("usw1".to_string()) },
    ]);
    let block = module_block(&claim, &vars, &provs, &vec!["bucket1a".to_string()]);
    let expected = r#"
        module "bucket2" {
            source = "./S3Bucket-0.0.21"
            bucket_name = "${module.bucket1a.bucket_name}-after"
            tags = var.bucket2__tags
            input_list = var.bucket2__input_list
            providers = { aws = aws, "aws.usw1" = aws.usw1 }
            depends_on = [module.bucket1a]
        }
    "#;
    same(vec![block], expected);
}

#[test]
fn plain_expressions_can_be_variables() {
    assert!(can_be_variable(&HclExpr::Str("x".to_string())));
    assert!(can_be_variable(&HclExpr::Array(vec![HclExpr::Number("1".to_string())])));
    assert!(!can_be_variable(&HclExpr::Quoted("${var.a}".to_string())));
    assert!(!can_be_variable(&HclExpr::Object(vec![(
        "a".to_string(),
        HclExpr::Traversal("var".to_string(), vec!["a".to_string()])
    )])));
    assert!(can_be_variable(&HclExpr::Traversal("aws".to_string(), vec![])));
}

#[test]
fn default_collects_nothing() {
    let m = TfProviderMgmt::default();
    assert!(m.build().is_empty());
}

use infraweave::manifest::{TfOutput, TfVariable};
use infraweave::module_root::{collect_module_blocks, module_call, remap_module_output};
use infraweave::stack_root::{
    json_to_hcl, output_blocks, required_providers_of, stack_variables, variable_block, variable_blocks,
};

#[test]
fn module_outputs_are_exposed_from_the_module_call() {
    let output = &blocks_of(
        r#"
        output "bucket_arn" {
            description = "ARN of the bucket"
            value = aws_s3_bucket.bucket.arn
            depends_on = [aws_s3_bucket.bucket]
        }
    "#,
    )[0];
    same(
        vec![remap_module_output("s3bucket", output)],
        r#"
        output "bucket_arn" {
            description = "ARN of the bucket"
            value = module.s3bucket.bucket_arn
        }
    "#,
    );
}

#[test]
fn module_root_of_a_module() {
    let module_code = blocks_of(
        r#"
        variable "bucket_name" {
            type = string
        }
        resource "aws_s3_bucket" "bucket" {
            bucket = var.bucket_name
        }
        output "bucket_arn" {
            value = aws_s3_bucket.bucket.arn
        }
    "#,
    );
    let mut mgmt = TfProviderMgmt::new();
    for b in blocks_of(
        r#"
        terraform {
            required_providers {
                aws = {
                    source = "hashicorp/aws"
                    version = "~> 5.0"
                }
            }
        }
        provider "aws" {
            region = var.region
        }
        variable "region" {
            type = string
        }
    "#,
    ) {
        mgmt.add_block(&b);
    }
    let inputs = collect_module_blocks(&mut mgmt, "s3bucket", &module_code);
    assert_eq!(inputs.len(), 1);
    same(
        mgmt.build(),
        r#"
        terraform {
            required_providers {
                aws = {
                    source = "hashicorp/aws"
                    version = "~> 5.0"
                }
            }
        }
        provider "aws" {
            region = var.region
        }
        variable "region" {
            type = string
        }
        variable "bucket_name" {
            type = string
        }
        output "bucket_arn" {
            value = module.s3bucket.bucket_arn
        }
    "#,
    );
    let call = module_call(
        &"s3bucket".to_string(),
        &"S3Bucket".to_string(),
        &"0.0.21".to_string(),
        &inputs,
        &vec![ProviderConfig { name: "aws-5".to_string(), provider: "aws".to_string(), alias: None }],
    );
    same(
        vec![call],
        r#"
        module "s3bucket" {
            source = "./S3Bucket-0.0.21"
            bucket_name = var.bucket_name
            providers = { aws = aws }
        }
    "#,
    );
    let providers = required_providers_of(&mgmt.terraform()).unwrap();
    assert_eq!(providers.len(), 1);
    assert_eq!(providers[0].name, "aws");
    assert_eq!(providers[0].source, "hashicorp/aws");
    assert_eq!(providers[0].version, "~> 5.0");
}

#[test]
fn required_providers_must_give_source_and_version() {
    let no_version = blocks_of(
        r#"
        terraform {
            required_providers {
                aws = {
                    source = "hashicorp/aws"
                }
            }
        }
    "#,
    );
    assert_eq!(
        required_providers_of(&no_version).unwrap_err(),
        "Missing version for required_provider \"aws\""
    );
    let not_object = blocks_of(
        r#"
        terraform {
            required_providers {
                aws = "hashicorp/aws"
            }
        }
    "#,
    );
    assert_eq!(required_providers_of(&not_object).unwrap_err(), "required_provider aws has and incorrect body");
}

fn tf_var(name: &str, description: &str, default: Option<Value>, nullable: bool) -> TfVariable {
    TfVariable {
        name: name.to_string(),
        description: description.to_string(),
        default,
        sensitive: false,
        nullable,
        var_type: "string".to_string(),
    }
}

#[test]
fn stack_root_variables_and_outputs() {
    let tags = Value::Object(vec![
        ("Test".to_string(), Value::Text("hej".to_string())),
        ("Count".to_string(), Value::Number("2".to_string())),
    ]);
    same(
        vec![variable_block(&"bucket1a__tags".to_string(), &tf_var("tags", "Tags", Some(tags), true))],
        r#"
        variable "bucket1a__tags" {
            description = "Tags"
            nullable = true
            sensitive = false
            default = { Test = "hej", Count = 2 }
        }
    "#,
    );
    let vars = vec![
        ("bucket1a__bucket_name".to_string(), tf_var("bucket_name", "Name", None, false)),
        ("bucket2__bucket_name".to_string(), tf_var("bucket_name", "Name", Some(Value::Text("x".to_string())), false)),
    ];
    let set_by_reference = vec!["bucket2__bucket_name".to_string()];
    same(
        variable_blocks(&vars, &set_by_reference),
        r#"
        variable "bucket1a__bucket_name" {
            description = "Name"
            nullable = false
            sensitive = false
        }
    "#,
    );
    let stack_vars = stack_variables(&vars, &set_by_reference);
    assert_eq!(stack_vars.len(), 1);
    assert_eq!(stack_vars[0].name, "bucket1a__bucket_name");
    let outputs = vec![(
        "bucket1a__bucket_arn".to_string(),
        TfOutput { name: "bucket_arn".to_string(), description: "ARN".to_string() },
    )];
    same(
        output_blocks(&outputs),
        r#"
        output "bucket1a__bucket_arn" {
            description = "ARN"
            value = module.bucket1a.bucket_arn
        }
    "#,
    );
    assert!(matches!(json_to_hcl(&Value::List(vec![Value::Null, Value::Bool(true)])), HclExpr::Array(ref items) if items.len() == 2));
}
